//! The execution engine: one node's registers, memory and program, and the
//! fetch-decode-execute step.
use vstd::prelude::*;
use crate::assembler::{assemble, assemble_spec, AssemblyError};
use crate::instructions::{program_view, Op, INSTRUCTIONS, LOCATION};
use crate::labels::LabelTable;

verus! {

/// Number of memory cells; every `u8` register index names one of them.
pub const MEMORY_SIZE: usize = 256;

/// The mathematical state of a node.
pub struct NodeView {
    pub acc: i16,
    pub bak: i16,
    pub pointer: int,
    pub memory: Seq<i16>,
    pub program: Seq<Op>,
    pub labels: Map<Seq<char>, usize>,
}

impl NodeView {
    /// The memory has its fixed size and the program counter points into the
    /// program (or is 0 while there is none).
    pub open spec fn wf(self) -> bool {
        &&& self.memory.len() == MEMORY_SIZE
        &&& if self.program.len() == 0 {
            self.pointer == 0
        } else {
            0 <= self.pointer < self.program.len()
        }
    }
}

/// What one step did.
#[derive(Debug, Clone, Copy, PartialEq, Eq, Structural)]
pub struct StepEffect {
    /// Index of the instruction that was executed.
    pub executed: usize,
    /// The program counter after the step.
    pub next: usize,
    /// The value sent to the display, if the instruction wrote there.
    pub displayed: Option<i16>,
    /// Whether an `ADD` or `SUB` saturated.
    pub overflow: bool,
}

/// Why a step could not be executed. A failed step changes nothing.
#[derive(Debug, Clone, Copy, PartialEq, Eq, Structural)]
pub enum ExecutionError {
    /// The node holds no program.
    EmptyProgram,
    /// The program counter is past the end of the program.
    ProgramCounterOutOfRange,
    /// A jump was taken to a label that the program does not define.
    UnknownLabel,
    /// A jump was taken to a label bound past the end of the program.
    JumpOutOfRange,
}

/// `x` clamped to the range of `i16`.
pub open spec fn clamp_i16(x: int) -> i16 {
    if x > i16::MAX {
        i16::MAX
    } else if x < i16::MIN {
        i16::MIN
    } else {
        x as i16
    }
}

pub open spec fn outside_i16(x: int) -> bool {
    x > i16::MAX || x < i16::MIN
}

/// The instruction after `p`, wrapping to 0 after the last one.
pub open spec fn next_index(p: int, len: int) -> int {
    if p + 1 >= len {
        0
    } else {
        p + 1
    }
}

/// The value a `MOV` reads from `l`; a port reads as 0.
pub open spec fn read_spec(v: NodeView, l: LOCATION) -> i16 {
    match l {
        LOCATION::ACC => v.acc,
        LOCATION::VALUE(x) => x,
        LOCATION::REGISTER(r) => if (r as int) < v.memory.len() {
            v.memory[r as int]
        } else {
            0
        },
        _ => 0,
    }
}

/// The state after a `MOV` writes `x` to `l`. The display is outside the
/// state; ports and literal values take nothing.
pub open spec fn write_spec(v: NodeView, l: LOCATION, x: i16) -> NodeView {
    match l {
        LOCATION::ACC => NodeView { acc: x, ..v },
        LOCATION::REGISTER(r) => if (r as int) < v.memory.len() {
            NodeView { memory: v.memory.update(r as int, x), ..v }
        } else {
            v
        },
        _ => v,
    }
}

pub open spec fn at(v: NodeView, p: int) -> NodeView {
    NodeView { pointer: p, ..v }
}

pub open spec fn effect(v: NodeView, next: int, displayed: Option<i16>, overflow: bool) -> StepEffect {
    StepEffect { executed: v.pointer as usize, next: next as usize, displayed, overflow }
}

/// A jump to `label`, taken when `taken` holds; else the step goes on to `next`.
pub open spec fn jump_spec(v: NodeView, label: Seq<char>, next: int, taken: bool) -> Result<
    (NodeView, StepEffect),
    ExecutionError,
> {
    if !taken {
        Ok((at(v, next), effect(v, next, None, false)))
    } else if !v.labels.contains_key(label) {
        Err(ExecutionError::UnknownLabel)
    } else if v.labels[label] >= v.program.len() {
        Err(ExecutionError::JumpOutOfRange)
    } else {
        let t = v.labels[label] as int;
        Ok((at(v, t), effect(v, t, None, false)))
    }
}

/// One fetch-decode-execute step from state `v`.
pub open spec fn step_spec(v: NodeView) -> Result<(NodeView, StepEffect), ExecutionError> {
    if v.program.len() == 0 {
        Err(ExecutionError::EmptyProgram)
    } else if !(0 <= v.pointer < v.program.len()) {
        Err(ExecutionError::ProgramCounterOutOfRange)
    } else {
        let next = next_index(v.pointer, v.program.len() as int);
        let w = at(v, next);
        let plain = effect(v, next, None, false);
        match v.program[v.pointer] {
            Op::Add(x) => Ok(
                (
                    NodeView { acc: clamp_i16(v.acc + x), ..w },
                    effect(v, next, None, outside_i16(v.acc + x)),
                ),
            ),
            Op::Sub(x) => Ok(
                (
                    NodeView { acc: clamp_i16(v.acc - x), ..w },
                    effect(v, next, None, outside_i16(v.acc - x)),
                ),
            ),
            Op::Mov(a, b) => {
                let x = read_spec(v, a);
                Ok(
                    (
                        write_spec(w, b, x),
                        effect(v, next, if b is DISPLAY { Some(x) } else { None }, false),
                    ),
                )
            },
            Op::Swp => Ok((NodeView { acc: v.bak, bak: v.acc, ..w }, plain)),
            Op::Sav => Ok((NodeView { bak: v.acc, ..w }, plain)),
            Op::Jmp(l) => jump_spec(v, l, next, true),
            Op::Jez(l) => jump_spec(v, l, next, v.acc == 0),
            Op::Jgz(l) => jump_spec(v, l, next, v.acc > 0),
            Op::Jlz(l) => jump_spec(v, l, next, v.acc < 0),
            Op::Ignore => Ok((w, plain)),
        }
    }
}

/// `n` steps from `v`: the state reached and the effect of each step, or
/// the error of the first step that fails.
pub open spec fn run_spec(v: NodeView, n: nat) -> Result<(NodeView, Seq<StepEffect>), ExecutionError>
    decreases n,
{
    if n == 0 {
        Ok((v, Seq::empty()))
    } else {
        match run_spec(v, (n - 1) as nat) {
            Err(e) => Err(e),
            Ok((w, effects)) => match step_spec(w) {
                Err(e) => Err(e),
                Ok((u, eff)) => Ok((u, effects.push(eff))),
            },
        }
    }
}

/// A step from a well-formed state leaves a well-formed state.
pub proof fn lemma_step_keeps_wf(v: NodeView)
    requires
        v.wf(),
    ensures
        step_spec(v) is Ok ==> step_spec(v)->Ok_0.0.wf() && step_spec(v)->Ok_0.0.program
            == v.program && step_spec(v)->Ok_0.0.labels == v.labels,
        step_spec(v) != Err::<(NodeView, StepEffect), ExecutionError>(
            ExecutionError::ProgramCounterOutOfRange,
        ),
{
}

/// Once a run has failed, running longer fails the same way.
proof fn lemma_run_error_persists(v: NodeView, k: nat, n: nat)
    requires
        k <= n,
        run_spec(v, k) is Err,
    ensures
        run_spec(v, n) == run_spec(v, k),
    decreases n,
{
    if k < n {
        lemma_run_error_persists(v, k, (n - 1) as nat);
    }
}

/// A processing node: accumulator, backup register, program counter,
/// memory, and the program with its label table.
pub struct Node {
    acc: i16,
    bak: i16,
    pointer: usize,
    instructions: Vec<INSTRUCTIONS>,
    memory: Vec<i16>,
    label_map: LabelTable,
}

impl View for Node {
    type V = NodeView;

    closed spec fn view(&self) -> NodeView {
        NodeView {
            acc: self.acc,
            bak: self.bak,
            pointer: self.pointer as int,
            memory: self.memory@,
            program: program_view(self.instructions@),
            labels: self.label_map@,
        }
    }
}

impl Node {
    /// A node with every register and memory cell at 0 and no program.
    pub fn new() -> (r: Node)
        ensures
            r@.wf(),
            r@.acc == 0,
            r@.bak == 0,
            r@.pointer == 0,
            r@.memory == Seq::new(MEMORY_SIZE as nat, |i: int| 0i16),
            r@.program.len() == 0,
            r@.labels == Map::<Seq<char>, usize>::empty(),
    {
        let memory = vec![0i16; MEMORY_SIZE];
        let r = Node {
            acc: 0,
            bak: 0,
            pointer: 0,
            instructions: Vec::new(),
            memory,
            label_map: LabelTable::new(),
        };
        assert(r@.memory =~= Seq::new(MEMORY_SIZE as nat, |i: int| 0i16));
        assert(program_view(r.instructions@) =~= Seq::<Op>::empty());
        r
    }

    /// Assembles `raw_instructions` and makes it the node's program, with the
    /// program counter at its first instruction. Registers and memory keep
    /// their values. On an error the node is left as it was.
    pub fn load(&mut self, raw_instructions: &str) -> (r: Result<(), AssemblyError>)
        requires
            old(self)@.wf(),
        ensures
            final(self)@.wf(),
            match r {
                Ok(()) => assemble_spec(raw_instructions@) == Ok::<
                    (Seq<Op>, Map<Seq<char>, usize>),
                    AssemblyError,
                >((final(self)@.program, final(self)@.labels)) && final(self)@.pointer == 0
                    && final(self)@.acc == old(self)@.acc && final(self)@.bak == old(self)@.bak
                    && final(self)@.memory == old(self)@.memory,
                Err(e) => assemble_spec(raw_instructions@) == Err::<
                    (Seq<Op>, Map<Seq<char>, usize>),
                    AssemblyError,
                >(e) && final(self)@ == old(self)@,
            },
    {
        match assemble(raw_instructions) {
            Ok((program, labels)) => {
                self.instructions = program;
                self.label_map = labels;
                self.pointer = 0;
                Ok(())
            },
            Err(e) => Err(e),
        }
    }

    /// The index that `label` is bound to, if it is bound within a program of
    /// `len` instructions.
    pub fn jmp(label_map: &LabelTable, len: usize, label: &String) -> (r: Result<
        usize,
        ExecutionError,
    >)
        ensures
            r == (if !label_map@.contains_key(label@) {
                Err(ExecutionError::UnknownLabel)
            } else if label_map@[label@] >= len {
                Err(ExecutionError::JumpOutOfRange)
            } else {
                Ok::<usize, ExecutionError>(label_map@[label@])
            }),
    {
        match label_map.get(label) {
            Some(jump_point) => {
                if jump_point >= len {
                    Err(ExecutionError::JumpOutOfRange)
                } else {
                    Ok(jump_point)
                }
            },
            None => Err(ExecutionError::UnknownLabel),
        }
    }

    /// Exchanges the accumulator and the backup register.
    pub fn swp(&mut self)
        ensures
            final(self)@ == (NodeView { acc: old(self)@.bak, bak: old(self)@.acc, ..old(self)@ }),
    {
        let temp_bak = self.bak;
        self.bak = self.acc;
        self.acc = temp_bak;
    }

    /// Adds `value` to `acc`, saturating; returns whether it saturated.
    pub fn add(acc: &mut i16, value: i16) -> (overflow: bool)
        ensures
            *final(acc) == clamp_i16(*old(acc) + value),
            overflow == outside_i16(*old(acc) + value),
    {
        let exact: i32 = *acc as i32 + value as i32;
        if exact > i16::MAX as i32 {
            *acc = i16::MAX;
            true
        } else if exact < i16::MIN as i32 {
            *acc = i16::MIN;
            true
        } else {
            *acc = exact as i16;
            false
        }
    }

    /// Subtracts `value` from `acc`, saturating; returns whether it saturated.
    pub fn sub(acc: &mut i16, value: i16) -> (overflow: bool)
        ensures
            *final(acc) == clamp_i16(*old(acc) - value),
            overflow == outside_i16(*old(acc) - value),
    {
        let exact: i32 = *acc as i32 - value as i32;
        if exact > i16::MAX as i32 {
            *acc = i16::MAX;
            true
        } else if exact < i16::MIN as i32 {
            *acc = i16::MIN;
            true
        } else {
            *acc = exact as i16;
            false
        }
    }

    /// Fetches, decodes and executes the instruction at the program counter.
    ///
    /// The program counter first moves to the next instruction, wrapping to
    /// 0 after the last one; a jump that is taken then replaces it. On an
    /// error nothing changes.
    pub fn step(&mut self) -> (r: Result<StepEffect, ExecutionError>)
        requires
            old(self)@.wf(),
        ensures
            final(self)@.wf(),
            match r {
                Ok(eff) => step_spec(old(self)@) == Ok::<(NodeView, StepEffect), ExecutionError>(
                    (final(self)@, eff),
                ),
                Err(e) => step_spec(old(self)@) == Err::<(NodeView, StepEffect), ExecutionError>(e)
                    && final(self)@ == old(self)@,
            },
    {
        proof {
            lemma_step_keeps_wf(self@);
        }
        let len = self.instructions.len();
        if len == 0 {
            return Err(ExecutionError::EmptyProgram);
        }
        if self.pointer >= len {
            return Err(ExecutionError::ProgramCounterOutOfRange);
        }
        let current = self.pointer;
        let next = if current + 1 >= len {
            0
        } else {
            current + 1
        };
        let ghost v = self@;
        assert(v.program[current as int] == self.instructions@[current as int]@);
        let mut displayed: Option<i16> = None;
        let mut overflow = false;
        match &self.instructions[current] {
            INSTRUCTIONS::ADD(value) => {
                overflow = Node::add(&mut self.acc, *value);
                self.pointer = next;
            },
            INSTRUCTIONS::SUB(value) => {
                overflow = Node::sub(&mut self.acc, *value);
                self.pointer = next;
            },
            INSTRUCTIONS::MOV(src, dest) => {
                let value: i16 = match src {
                    LOCATION::ACC => self.acc,
                    LOCATION::VALUE(x) => *x,
                    LOCATION::REGISTER(r) => self.memory[*r as usize],
                    _ => 0,
                };
                match dest {
                    LOCATION::ACC => Node::mov(value, &mut self.acc),
                    LOCATION::DISPLAY => displayed = Some(value),
                    LOCATION::REGISTER(r) => self.memory.set(*r as usize, value),
                    _ => {},
                }
                self.pointer = next;
            },
            INSTRUCTIONS::SWP => {
                self.swp();
                self.pointer = next;
            },
            INSTRUCTIONS::SAV => {
                self.bak = self.acc;
                self.pointer = next;
            },
            INSTRUCTIONS::JMP(label) => {
                self.pointer = Node::jmp(&self.label_map, len, label)?;
            },
            INSTRUCTIONS::JEZ(label) => {
                self.pointer = if self.acc == 0 {
                    Node::jmp(&self.label_map, len, label)?
                } else {
                    next
                };
            },
            INSTRUCTIONS::JGZ(label) => {
                self.pointer = if self.acc > 0 {
                    Node::jmp(&self.label_map, len, label)?
                } else {
                    next
                };
            },
            INSTRUCTIONS::JLZ(label) => {
                self.pointer = if self.acc < 0 {
                    Node::jmp(&self.label_map, len, label)?
                } else {
                    next
                };
            },
            INSTRUCTIONS::IGNORE => {
                self.pointer = next;
            },
        }
        let eff = StepEffect { executed: current, next: self.pointer, displayed, overflow };
        assert(self@.memory =~= step_spec(v)->Ok_0.0.memory);
        Ok(eff)
    }

    /// Executes up to `steps` steps, stopping at the first that fails; gives
    /// the effect of each step.
    pub fn run(&mut self, steps: usize) -> (r: Result<Vec<StepEffect>, ExecutionError>)
        requires
            old(self)@.wf(),
        ensures
            final(self)@.wf(),
            match r {
                Ok(effects) => run_spec(old(self)@, steps as nat) == Ok::<
                    (NodeView, Seq<StepEffect>),
                    ExecutionError,
                >((final(self)@, effects@)),
                Err(e) => run_spec(old(self)@, steps as nat) == Err::<
                    (NodeView, Seq<StepEffect>),
                    ExecutionError,
                >(e) && exists|k: nat|
                    k < steps && #[trigger] run_spec(old(self)@, k) is Ok && run_spec(
                        old(self)@,
                        k,
                    )->Ok_0.0 == final(self)@ && step_spec(final(self)@) == Err::<
                        (NodeView, StepEffect),
                        ExecutionError,
                    >(e),
            },
    {
        let mut effects: Vec<StepEffect> = Vec::new();
        let mut k: usize = 0;
        while k < steps
            invariant
                k <= steps,
                self@.wf(),
                run_spec(old(self)@, k as nat) == Ok::<(NodeView, Seq<StepEffect>), ExecutionError>(
                    (self@, effects@),
                ),
            decreases steps - k,
        {
            match self.step() {
                Ok(eff) => effects.push(eff),
                Err(e) => {
                    proof {
                        lemma_run_error_persists(old(self)@, (k + 1) as nat, steps as nat);
                        assert(run_spec(old(self)@, k as nat) is Ok);
                    }
                    return Err(e);
                },
            }
            k += 1;
        }
        Ok(effects)
    }

    /// The accumulator.
    pub fn acc(&self) -> (r: i16)
        ensures
            r == self@.acc,
    {
        self.acc
    }

    /// The backup register.
    pub fn bak(&self) -> (r: i16)
        ensures
            r == self@.bak,
    {
        self.bak
    }

    /// The index of the next instruction to execute.
    pub fn pointer(&self) -> (r: usize)
        ensures
            r == self@.pointer,
    {
        self.pointer
    }

    /// The memory cell that `REGISTER(index)` names.
    pub fn register(&self, index: u8) -> (r: i16)
        requires
            self@.wf(),
        ensures
            r == self@.memory[index as int],
    {
        self.memory[index as usize]
    }

    /// The number of instructions in the program.
    pub fn program_len(&self) -> (r: usize)
        ensures
            r == self@.program.len(),
    {
        self.instructions.len()
    }

    /// The label table of the program.
    pub fn labels(&self) -> (r: &LabelTable)
        ensures
            r@ == self@.labels,
    {
        &self.label_map
    }

    /// Stores `src` in `dest`.
    pub fn mov(src: i16, dest: &mut i16)
        ensures
            *final(dest) == src,
    {
        *dest = src;
    }
}

} // verus!
