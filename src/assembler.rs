//! Turning source text into a program and its label table.
use vstd::prelude::*;
use crate::instructions::{program_view, Op, INSTRUCTIONS, LOCATION};
use crate::labels::LabelTable;
use crate::text::{
    chars_of, is_space, line_spans, lines, parse_i16, parse_i16_spec, parse_u8, parse_u8_spec,
    span_is, span_text, spans_within, token_spans, tokens,
};

verus! {

/// Why one line of source could not be assembled.
#[derive(Debug, Clone, Copy, PartialEq, Eq, Structural)]
pub enum LineError {
    /// A label definition that holds blank characters or has an empty name.
    MalformedLabel,
    /// A label that an earlier line already defines.
    DuplicateLabel,
    UnrecognizedOpcode,
    MissingOperand,
    /// An `ADD` or `SUB` operand that is not a signed 16-bit integer.
    InvalidNumericOperand,
    /// A `MOV` operand that names no location.
    UnknownLocationToken,
    /// A `MOV` whose destination is a literal value.
    ImmediateDestination,
    /// A `MOV` whose source and destination are the same location.
    IdenticalMoveOperands,
}

/// Why a source text could not be assembled.
#[derive(Debug, Clone, Copy, PartialEq, Eq, Structural)]
pub enum AssemblyError {
    /// The text holds no line at all.
    EmptyProgram,
    /// The first failing line, by its 0-based index (which is also the index
    /// of the instruction it would have given).
    Line { line: usize, error: LineError },
}

/// What one line stands for.
pub enum LineModel {
    Label(Seq<char>),
    Instr(Op),
}

/// What one line assembles to in the program.
pub enum Line {
    Label(String),
    Instr(INSTRUCTIONS),
}

pub open spec fn line_view(l: Line) -> LineModel {
    match l {
        Line::Label(n) => LineModel::Label(n@),
        Line::Instr(i) => LineModel::Instr(i@),
    }
}

/// `l` without one trailing carriage return.
pub open spec fn trim_cr(l: Seq<char>) -> Seq<char> {
    if l.len() > 0 && l.last() == '\r' {
        l.drop_last()
    } else {
        l
    }
}

pub open spec fn has_space(l: Seq<char>) -> bool {
    exists|k: int| 0 <= k < l.len() && is_space(#[trigger] l[k])
}

/// The location a `MOV` operand names.
pub open spec fn parse_location_spec(t: Seq<char>) -> Option<LOCATION> {
    if t == "ACC"@ {
        Some(LOCATION::ACC)
    } else if t == "DISPLAY"@ {
        Some(LOCATION::DISPLAY)
    } else if t == "UP"@ {
        Some(LOCATION::UP)
    } else if t == "DOWN"@ {
        Some(LOCATION::DOWN)
    } else if t == "LEFT"@ {
        Some(LOCATION::LEFT)
    } else if t == "RIGHT"@ {
        Some(LOCATION::RIGHT)
    } else {
        match parse_i16_spec(t) {
            Some(v) => Some(LOCATION::VALUE(v)),
            None => if t.len() > 0 && t[0] == '$' {
                match parse_u8_spec(t.drop_first()) {
                    Some(r) => Some(LOCATION::REGISTER(r)),
                    None => None,
                }
            } else {
                None
            },
        }
    }
}

/// `MOV` with its two operand tokens.
pub open spec fn parse_move_spec(src: Seq<char>, dst: Seq<char>) -> Result<Op, LineError> {
    match (parse_location_spec(src), parse_location_spec(dst)) {
        (Some(a), Some(b)) => if a == b {
            Err(LineError::IdenticalMoveOperands)
        } else if b is VALUE {
            Err(LineError::ImmediateDestination)
        } else {
            Ok(Op::Mov(a, b))
        },
        _ => Err(LineError::UnknownLocationToken),
    }
}

/// An instruction line, given as its tokens; tokens past the operands are
/// not read.
pub open spec fn parse_instruction_spec(t: Seq<Seq<char>>) -> Result<Op, LineError>
    recommends
        t.len() > 0,
{
    let w = t[0];
    if w == "MOV"@ {
        if t.len() < 3 {
            Err(LineError::MissingOperand)
        } else {
            parse_move_spec(t[1], t[2])
        }
    } else if w == "SWP"@ {
        Ok(Op::Swp)
    } else if w == "SAV"@ {
        Ok(Op::Sav)
    } else if w == "ADD"@ || w == "SUB"@ {
        if t.len() < 2 {
            Err(LineError::MissingOperand)
        } else {
            match parse_i16_spec(t[1]) {
                Some(v) => Ok(if w == "ADD"@ { Op::Add(v) } else { Op::Sub(v) }),
                None => Err(LineError::InvalidNumericOperand),
            }
        }
    } else if w == "JMP"@ || w == "JEZ"@ || w == "JGZ"@ || w == "JLZ"@ {
        if t.len() < 2 {
            Err(LineError::MissingOperand)
        } else if w == "JMP"@ {
            Ok(Op::Jmp(t[1]))
        } else if w == "JEZ"@ {
            Ok(Op::Jez(t[1]))
        } else if w == "JGZ"@ {
            Ok(Op::Jgz(t[1]))
        } else {
            Ok(Op::Jlz(t[1]))
        }
    } else {
        Err(LineError::UnrecognizedOpcode)
    }
}

/// One line of source. A line ending in `':'` defines the label before the
/// colon; a blank line stands for an instruction that does nothing.
pub open spec fn parse_line_spec(raw: Seq<char>) -> Result<LineModel, LineError> {
    let l = trim_cr(raw);
    if l.len() > 0 && l.last() == ':' {
        if l.len() == 1 || has_space(l) {
            Err(LineError::MalformedLabel)
        } else {
            Ok(LineModel::Label(l.drop_last()))
        }
    } else if tokens(l).len() == 0 {
        Ok(LineModel::Instr(Op::Ignore))
    } else {
        match parse_instruction_spec(tokens(l)) {
            Ok(op) => Ok(LineModel::Instr(op)),
            Err(e) => Err(e),
        }
    }
}

/// Assembling a list of lines: each line gives one instruction (a label line
/// gives `IGNORE` and binds its name to that line's index). The first line
/// that fails decides the error.
pub open spec fn assemble_lines(ls: Seq<Seq<char>>) -> Result<(Seq<Op>, Map<Seq<char>, usize>), AssemblyError>
    decreases ls.len(),
{
    if ls.len() == 0 {
        Ok((Seq::empty(), Map::empty()))
    } else {
        let k = ls.len() - 1;
        match assemble_lines(ls.drop_last()) {
            Err(e) => Err(e),
            Ok((prog, labels)) => match parse_line_spec(ls[k]) {
                Err(e) => Err(AssemblyError::Line { line: k as usize, error: e }),
                Ok(LineModel::Label(name)) => if labels.contains_key(name) {
                    Err(AssemblyError::Line { line: k as usize, error: LineError::DuplicateLabel })
                } else {
                    Ok((prog.push(Op::Ignore), labels.insert(name, k as usize)))
                },
                Ok(LineModel::Instr(op)) => Ok((prog.push(op), labels)),
            },
        }
    }
}

/// Assembling a source text.
pub open spec fn assemble_spec(text: Seq<char>) -> Result<(Seq<Op>, Map<Seq<char>, usize>), AssemblyError> {
    if lines(text).len() == 0 {
        Err(AssemblyError::EmptyProgram)
    } else {
        assemble_lines(lines(text))
    }
}

/// Once a prefix of the lines fails, the whole list fails the same way.
pub proof fn lemma_prefix_error(ls: Seq<Seq<char>>, n: int)
    requires
        0 <= n <= ls.len(),
        assemble_lines(ls.take(n)) is Err,
    ensures
        assemble_lines(ls) == assemble_lines(ls.take(n)),
    decreases ls.len(),
{
    if n == ls.len() {
        assert(ls.take(n) =~= ls);
    } else {
        assert(ls.drop_last().take(n) =~= ls.take(n));
        lemma_prefix_error(ls.drop_last(), n);
    }
}

/// The location that the token `chars[lo..hi]` names, if any.
pub fn parse_location(chars: &Vec<char>, lo: usize, hi: usize) -> (r: Option<LOCATION>)
    requires
        lo <= hi <= chars@.len(),
    ensures
        r == parse_location_spec(chars@.subrange(lo as int, hi as int)),
{
    let ghost t = chars@.subrange(lo as int, hi as int);
    if span_is(chars, lo, hi, "ACC") {
        Some(LOCATION::ACC)
    } else if span_is(chars, lo, hi, "DISPLAY") {
        Some(LOCATION::DISPLAY)
    } else if span_is(chars, lo, hi, "UP") {
        Some(LOCATION::UP)
    } else if span_is(chars, lo, hi, "DOWN") {
        Some(LOCATION::DOWN)
    } else if span_is(chars, lo, hi, "LEFT") {
        Some(LOCATION::LEFT)
    } else if span_is(chars, lo, hi, "RIGHT") {
        Some(LOCATION::RIGHT)
    } else {
        match parse_i16(chars, lo, hi) {
            Some(v) => Some(LOCATION::VALUE(v)),
            None => {
                if lo < hi && chars[lo] == '$' {
                    assert(chars@.subrange(lo + 1, hi as int) =~= t.drop_first());
                    match parse_u8(chars, lo + 1, hi) {
                        Some(r) => Some(LOCATION::REGISTER(r)),
                        None => None,
                    }
                } else {
                    None
                }
            },
        }
    }
}

/// The instruction that the tokens `toks` of a line give.
fn parse_instruction(text: &str, chars: &Vec<char>, toks: &Vec<(usize, usize)>) -> (r: Result<
    INSTRUCTIONS,
    LineError,
>)
    requires
        chars@ == text@,
        toks@.len() > 0,
        spans_within(toks@, 0, chars@.len() as int),
    ensures
        match r {
            Ok(i) => parse_instruction_spec(span_text(chars@, toks@)) == Ok::<Op, LineError>(i@),
            Err(e) => parse_instruction_spec(span_text(chars@, toks@)) == Err::<Op, LineError>(e),
        },
{
    let ghost t = span_text(chars@, toks@);
    let (lo, hi) = toks[0];
    assert(t[0] == chars@.subrange(lo as int, hi as int));
    if span_is(chars, lo, hi, "MOV") {
        if toks.len() < 3 {
            return Err(LineError::MissingOperand);
        }
        let (a_lo, a_hi) = toks[1];
        let (b_lo, b_hi) = toks[2];
        assert(t[1] == chars@.subrange(a_lo as int, a_hi as int));
        assert(t[2] == chars@.subrange(b_lo as int, b_hi as int));
        match (parse_location(chars, a_lo, a_hi), parse_location(chars, b_lo, b_hi)) {
            (Some(a), Some(b)) => {
                if a == b {
                    Err(LineError::IdenticalMoveOperands)
                } else if let LOCATION::VALUE(_) = b {
                    Err(LineError::ImmediateDestination)
                } else {
                    Ok(INSTRUCTIONS::MOV(a, b))
                }
            },
            _ => Err(LineError::UnknownLocationToken),
        }
    } else if span_is(chars, lo, hi, "SWP") {
        Ok(INSTRUCTIONS::SWP)
    } else if span_is(chars, lo, hi, "SAV") {
        Ok(INSTRUCTIONS::SAV)
    } else {
        let is_add = span_is(chars, lo, hi, "ADD");
        if is_add || span_is(chars, lo, hi, "SUB") {
            if toks.len() < 2 {
                return Err(LineError::MissingOperand);
            }
            let (v_lo, v_hi) = toks[1];
            assert(t[1] == chars@.subrange(v_lo as int, v_hi as int));
            match parse_i16(chars, v_lo, v_hi) {
                Some(v) => Ok(
                    if is_add {
                        INSTRUCTIONS::ADD(v)
                    } else {
                        INSTRUCTIONS::SUB(v)
                    },
                ),
                None => Err(LineError::InvalidNumericOperand),
            }
        } else {
            let is_jmp = span_is(chars, lo, hi, "JMP");
            let is_jez = span_is(chars, lo, hi, "JEZ");
            let is_jgz = span_is(chars, lo, hi, "JGZ");
            let is_jlz = span_is(chars, lo, hi, "JLZ");
            if !(is_jmp || is_jez || is_jgz || is_jlz) {
                return Err(LineError::UnrecognizedOpcode);
            }
            if toks.len() < 2 {
                return Err(LineError::MissingOperand);
            }
            let (l_lo, l_hi) = toks[1];
            assert(t[1] == chars@.subrange(l_lo as int, l_hi as int));
            let label = text.substring_char(l_lo, l_hi).to_owned();
            if is_jmp {
                Ok(INSTRUCTIONS::JMP(label))
            } else if is_jez {
                Ok(INSTRUCTIONS::JEZ(label))
            } else if is_jgz {
                Ok(INSTRUCTIONS::JGZ(label))
            } else {
                Ok(INSTRUCTIONS::JLZ(label))
            }
        }
    }
}

/// What the line `chars[lo..hi]` of `text` assembles to.
fn parse_line(text: &str, chars: &Vec<char>, lo: usize, hi: usize) -> (r: Result<Line, LineError>)
    requires
        chars@ == text@,
        lo <= hi <= chars@.len(),
    ensures
        match r {
            Ok(l) => parse_line_spec(chars@.subrange(lo as int, hi as int)) == Ok::<
                LineModel,
                LineError,
            >(line_view(l)),
            Err(e) => parse_line_spec(chars@.subrange(lo as int, hi as int)) == Err::<
                LineModel,
                LineError,
            >(e),
        },
{
    let ghost raw = chars@.subrange(lo as int, hi as int);
    let end = if lo < hi && chars[hi - 1] == '\r' { hi - 1 } else { hi };
    let ghost l = chars@.subrange(lo as int, end as int);
    assert(l =~= trim_cr(raw));
    if lo < end && chars[end - 1] == ':' {
        assert(l.last() == chars@[end - 1]);
        if end - lo == 1 {
            return Err(LineError::MalformedLabel);
        }
        let mut i: usize = lo;
        while i < end
            invariant
                lo <= i <= end <= chars@.len(),
                l == chars@.subrange(lo as int, end as int),
                l == trim_cr(raw),
                raw == chars@.subrange(lo as int, hi as int),
                l.len() > 1,
                l.last() == ':',
                forall|k: int| 0 <= k < i - lo ==> !is_space(#[trigger] l[k]),
            decreases end - i,
        {
            let c = chars[i];
            if c == ' ' || c == '\t' || c == '\r' || c == '\x0b' || c == '\x0c' {
                assert(l[i - lo] == c);
                assert(is_space(l[i - lo]));
                assert(has_space(l));
                return Err(LineError::MalformedLabel);
            }
            i += 1;
        }
        assert(!has_space(l));
        assert(chars@.subrange(lo as int, end - 1) =~= l.drop_last());
        Ok(Line::Label(text.substring_char(lo, end - 1).to_owned()))
    } else {
        let toks = token_spans(chars, lo, end);
        if toks.len() == 0 {
            Ok(Line::Instr(INSTRUCTIONS::IGNORE))
        } else {
            assert forall|k: int| 0 <= k < toks@.len() implies 0 <= #[trigger] toks@[k].0
                <= toks@[k].1 <= chars@.len() by {}
            match parse_instruction(text, chars, &toks) {
                Ok(i) => Ok(Line::Instr(i)),
                Err(e) => Err(e),
            }
        }
    }
}

/// Assembles source text into a program and its label table.
///
/// Jump targets are not looked up here: a jump to a label that no line
/// defines assembles, and fails only when it is taken.
pub fn assemble(text: &str) -> (r: Result<(Vec<INSTRUCTIONS>, LabelTable), AssemblyError>)
    ensures
        match r {
            Ok((p, t)) => assemble_spec(text@) == Ok::<
                (Seq<Op>, Map<Seq<char>, usize>),
                AssemblyError,
            >((program_view(p@), t@)),
            Err(e) => assemble_spec(text@) == Err::<
                (Seq<Op>, Map<Seq<char>, usize>),
                AssemblyError,
            >(e),
        },
{
    let chars = chars_of(text);
    let spans = line_spans(&chars);
    let ghost ls = lines(text@);
    if spans.len() == 0 {
        return Err(AssemblyError::EmptyProgram);
    }
    let mut program: Vec<INSTRUCTIONS> = Vec::new();
    let mut table = LabelTable::new();
    let mut k: usize = 0;
    assert(ls.take(0) =~= Seq::<Seq<char>>::empty());
    assert(program_view(program@) =~= Seq::<Op>::empty());
    while k < spans.len()
        invariant
            chars@ == text@,
            ls == lines(text@),
            span_text(chars@, spans@) == ls,
            spans_within(spans@, 0, chars@.len() as int),
            k <= spans@.len(),
            assemble_lines(ls.take(k as int)) == Ok::<
                (Seq<Op>, Map<Seq<char>, usize>),
                AssemblyError,
            >((program_view(program@), table@)),
        decreases spans@.len() - k,
    {
        let (lo, hi) = spans[k];
        assert(ls[k as int] == chars@.subrange(lo as int, hi as int));
        assert(ls.take(k + 1).drop_last() =~= ls.take(k as int));
        assert(ls.take(k + 1)[k as int] == ls[k as int]);
        let ghost prev = program@;
        match parse_line(text, &chars, lo, hi) {
            Err(e) => {
                proof {
                    lemma_prefix_error(ls, k + 1);
                }
                return Err(AssemblyError::Line { line: k, error: e });
            },
            Ok(Line::Label(name)) => {
                if table.get(&name).is_some() {
                    proof {
                        lemma_prefix_error(ls, k + 1);
                    }
                    return Err(AssemblyError::Line { line: k, error: LineError::DuplicateLabel });
                }
                table.insert(name, k);
                program.push(INSTRUCTIONS::IGNORE);
            },
            Ok(Line::Instr(i)) => {
                program.push(i);
            },
        }
        assert(program_view(program@) =~= program_view(prev).push(program@.last()@));
        k += 1;
    }
    assert(ls.take(k as int) =~= ls);
    Ok((program, table))
}

} // verus!
