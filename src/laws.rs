//! Properties that relate the assembler and the engine, proved once for all
//! inputs.
use vstd::prelude::*;
use crate::assembler::{
    assemble_lines, assemble_spec, lemma_prefix_error, parse_instruction_spec, parse_line_spec,
    parse_location_spec, AssemblyError, LineError, LineModel,
};
use crate::instructions::Op;
use crate::node::{
    clamp_i16, lemma_step_keeps_wf, outside_i16, run_spec, step_spec, ExecutionError, NodeView,
    StepEffect,
};
use crate::text::lines;

verus! {

/// An assembled program has one instruction per line.
pub proof fn lemma_program_length(ls: Seq<Seq<char>>)
    requires
        assemble_lines(ls) is Ok,
    ensures
        assemble_lines(ls)->Ok_0.0.len() == ls.len(),
    decreases ls.len(),
{
    if ls.len() > 0 {
        lemma_program_length(ls.drop_last());
    }
}

/// A failed assembly names a line of the list.
pub proof fn lemma_error_line(ls: Seq<Seq<char>>)
    requires
        assemble_lines(ls) is Err,
    ensures
        match assemble_lines(ls) {
            Err(AssemblyError::Line { line, error }) => line < ls.len(),
            _ => false,
        },
    decreases ls.len(),
{
    if ls.len() > 0 && assemble_lines(ls.drop_last()) is Err {
        lemma_error_line(ls.drop_last());
    }
}

/// In an assembled list of lines, a label defined on line `k` is bound to
/// `k`, and line `k` holds `IGNORE`.
pub proof fn lemma_label_bound_to_its_line(ls: Seq<Seq<char>>, k: int, name: Seq<char>)
    requires
        assemble_lines(ls) is Ok,
        0 <= k < ls.len(),
        parse_line_spec(ls[k]) == Ok::<LineModel, LineError>(LineModel::Label(name)),
    ensures
        assemble_lines(ls)->Ok_0.1.contains_key(name),
        ls.len() <= usize::MAX ==> assemble_lines(ls)->Ok_0.1[name] == k,
        assemble_lines(ls)->Ok_0.0[k] == Op::Ignore,
    decreases ls.len(),
{
    let prev = ls.drop_last();
    lemma_program_length(prev);
    if k < ls.len() - 1 {
        assert(prev[k] == ls[k]);
        lemma_label_bound_to_its_line(prev, k, name);
    }
}

/// A label defined once in a program that assembles is bound to the index of
/// its line, that instruction is `IGNORE`, and a jump to the label moves the
/// program counter to that index.
pub proof fn lemma_jump_reaches_label(text: Seq<char>, k: int, name: Seq<char>, v: NodeView)
    requires
        assemble_spec(text) is Ok,
        0 <= k < lines(text).len() <= usize::MAX,
        parse_line_spec(lines(text)[k]) == Ok::<LineModel, LineError>(LineModel::Label(name)),
        v.wf(),
        v.program == assemble_spec(text)->Ok_0.0,
        v.labels == assemble_spec(text)->Ok_0.1,
        v.program[v.pointer] == Op::Jmp(name),
    ensures
        v.labels.contains_key(name),
        v.labels[name] == k,
        v.program[k] == Op::Ignore,
        step_spec(v) is Ok,
        step_spec(v)->Ok_0.0.pointer == k,
{
    lemma_label_bound_to_its_line(lines(text), k, name);
    lemma_program_length(lines(text));
}

/// Defining one label on two lines never assembles: the first failing line
/// is at most the second definition, and if it is that line the error is
/// `DuplicateLabel`.
pub proof fn lemma_duplicate_label_rejected(text: Seq<char>, i: int, j: int, name: Seq<char>)
    requires
        0 <= i < j < lines(text).len(),
        parse_line_spec(lines(text)[i]) == Ok::<LineModel, LineError>(LineModel::Label(name)),
        parse_line_spec(lines(text)[j]) == Ok::<LineModel, LineError>(LineModel::Label(name)),
    ensures
        match assemble_spec(text) {
            Err(AssemblyError::Line { line, error }) => line <= j && (line == j ==> error
                == LineError::DuplicateLabel),
            _ => false,
        },
{
    let ls = lines(text);
    let pre = ls.take(j + 1);
    assert(pre.drop_last() =~= ls.take(j));
    assert(pre[j] == ls[j]);
    if assemble_lines(ls.take(j)) is Err {
        lemma_error_line(ls.take(j));
    } else {
        assert(ls.take(j)[i] == ls[i]);
        lemma_label_bound_to_its_line(ls.take(j), i, name);
    }
    lemma_prefix_error(ls, j + 1);
}

/// Stepping the last instruction, when it is not a jump, wraps the program
/// counter to 0.
pub proof fn lemma_last_instruction_wraps(v: NodeView)
    requires
        v.wf(),
        v.program.len() >= 1,
        v.pointer == v.program.len() - 1,
        !(v.program[v.pointer] is Jmp || v.program[v.pointer] is Jez
            || v.program[v.pointer] is Jgz || v.program[v.pointer] is Jlz),
    ensures
        step_spec(v) is Ok,
        step_spec(v)->Ok_0.0.pointer == 0,
        step_spec(v)->Ok_0.1.next == 0,
{
}

/// Any number of steps from a well-formed state never reports the program
/// counter out of range, and the state stays well formed.
pub proof fn lemma_run_keeps_pointer_in_range(v: NodeView, n: nat)
    requires
        v.wf(),
    ensures
        run_spec(v, n) != Err::<(NodeView, Seq<StepEffect>), ExecutionError>(
            ExecutionError::ProgramCounterOutOfRange,
        ),
        run_spec(v, n) is Ok ==> run_spec(v, n)->Ok_0.0.wf(),
    decreases n,
{
    if n > 0 {
        lemma_run_keeps_pointer_in_range(v, (n - 1) as nat);
        if run_spec(v, (n - 1) as nat) is Ok {
            lemma_step_keeps_wf(run_spec(v, (n - 1) as nat)->Ok_0.0);
        }
    }
}

/// Subtracting what was added gives the accumulator back when the sum did
/// not saturate.
pub proof fn lemma_sub_undoes_add(acc: i16, x: i16)
    requires
        !outside_i16(acc + x),
    ensures
        clamp_i16(clamp_i16(acc + x) - x) == acc,
        !outside_i16(clamp_i16(acc + x) - x),
{
}

/// A `MOV` whose operands name locations is rejected as identical exactly
/// when the two locations are equal; otherwise, unless the destination is a
/// literal value, it assembles.
pub proof fn lemma_identical_move_only_when_equal(t: Seq<Seq<char>>)
    requires
        t.len() >= 3,
        t[0] == "MOV"@,
        parse_location_spec(t[1]) is Some,
        parse_location_spec(t[2]) is Some,
    ensures
        (parse_instruction_spec(t) == Err::<Op, LineError>(LineError::IdenticalMoveOperands))
            <==> parse_location_spec(t[1]) == parse_location_spec(t[2]),
        parse_location_spec(t[1]) != parse_location_spec(t[2]) && !(parse_location_spec(
            t[2],
        )->Some_0 is VALUE) ==> parse_instruction_spec(t) == Ok::<Op, LineError>(
            Op::Mov(parse_location_spec(t[1])->Some_0, parse_location_spec(t[2])->Some_0),
        ),
{
}

} // verus!
