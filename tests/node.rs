use tis_node::assembler::{assemble, AssemblyError, LineError};
use tis_node::instructions::{INSTRUCTIONS, LOCATION};
use tis_node::node::{ExecutionError, Node, StepEffect};
use tis_node::text::{chars_of, line_spans, parse_i16, parse_u8, token_spans};

fn loaded(src: &str) -> Node {
    let mut node = Node::new();
    node.load(src).expect("program assembles");
    node
}

fn load_error(src: &str) -> AssemblyError {
    let mut node = Node::new();
    node.load(src).expect_err("program is rejected")
}

fn line_error(line: usize, error: LineError) -> AssemblyError {
    AssemblyError::Line { line, error }
}

#[test]
fn scenario_add_then_display() {
    let mut node = loaded("ADD 5\nMOV ACC DISPLAY");
    let effects = node.run(2).unwrap();
    assert_eq!(effects[0].displayed, None);
    assert_eq!(effects[1].displayed, Some(5));
    assert_eq!(node.acc(), 5);
}

#[test]
fn scenario_counting_loop_saturates() {
    let mut node = loaded("START:\nADD 1\nJGZ START");
    let mut last_acc = 0;
    let mut saw_overflow = false;
    for _ in 0..110_000 {
        let before = node.pointer();
        let eff = node.step().unwrap();
        assert!(eff.next <= 2);
        assert_eq!(eff.executed, before);
        if before == 1 {
            assert!(node.acc() >= last_acc);
            if last_acc == i16::MAX {
                assert!(eff.overflow);
                saw_overflow = true;
            } else {
                assert!(!eff.overflow);
            }
        }
        last_acc = node.acc();
    }
    assert_eq!(node.acc(), i16::MAX);
    assert!(saw_overflow);
}

#[test]
fn scenario_unknown_label_fails_at_run_time() {
    let mut node = loaded("JMP NOPE");
    assert_eq!(node.step(), Err(ExecutionError::UnknownLabel));
    assert_eq!(node.pointer(), 0);
}

#[test]
fn scenario_register_index_too_large() {
    assert_eq!(
        load_error("MOV $300 ACC"),
        line_error(0, LineError::UnknownLocationToken)
    );
    assert_eq!(
        load_error("MOV ACC $256"),
        line_error(0, LineError::UnknownLocationToken)
    );
}

#[test]
fn identical_move_operands() {
    assert_eq!(load_error("MOV 5 5"), line_error(0, LineError::IdenticalMoveOperands));
    assert_eq!(load_error("MOV ACC ACC"), line_error(0, LineError::IdenticalMoveOperands));
    assert_eq!(load_error("MOV $4 $4"), line_error(0, LineError::IdenticalMoveOperands));
    let (program, _) = assemble("MOV 5 ACC").unwrap();
    assert!(matches!(
        program[0],
        INSTRUCTIONS::MOV(LOCATION::VALUE(5), LOCATION::ACC)
    ));
    assert!(assemble("MOV $4 $5").is_ok());
}

#[test]
fn immediate_destination_rejected() {
    assert_eq!(load_error("MOV ACC 5"), line_error(0, LineError::ImmediateDestination));
    assert_eq!(load_error("MOV 4 5"), line_error(0, LineError::ImmediateDestination));
}

#[test]
fn duplicate_label_rejected() {
    assert_eq!(load_error("A:\nADD 1\nA:"), line_error(2, LineError::DuplicateLabel));
    assert_eq!(load_error("A:\nB:\nA:\nB:"), line_error(2, LineError::DuplicateLabel));
}

#[test]
fn label_resolves_to_its_line() {
    let mut node = loaded("ADD 1\nLOOP:\nADD 2\nJMP LOOP");
    assert_eq!(node.labels().get(&String::from("LOOP")), Some(1));
    assert_eq!(node.labels().get(&String::from("ADD")), None);
    node.run(3).unwrap();
    assert_eq!(node.pointer(), 3);
    let eff = node.step().unwrap();
    assert_eq!(
        eff,
        StepEffect { executed: 3, next: 1, displayed: None, overflow: false }
    );
    assert_eq!(node.pointer(), 1);
}

#[test]
fn forward_reference_resolves() {
    let mut node = loaded("JMP END\nADD 100\nEND:\nADD 1");
    node.run(3).unwrap();
    assert_eq!(node.acc(), 1);
}

#[test]
fn counter_wraps_after_last_instruction() {
    let mut node = loaded("ADD 1\nADD 2");
    node.step().unwrap();
    let eff = node.step().unwrap();
    assert_eq!(eff.executed, 1);
    assert_eq!(eff.next, 0);
    assert_eq!(node.pointer(), 0);
    node.run(5).unwrap();
    assert_eq!(node.pointer(), 1);
    assert_eq!(node.acc(), 1 + 2 + 1 + 2 + 1 + 2 + 1);
}

#[test]
fn single_instruction_program_wraps_to_itself() {
    let mut node = loaded("SUB 3");
    let effects = node.run(4).unwrap();
    assert!(effects.iter().all(|e| e.executed == 0 && e.next == 0));
    assert_eq!(node.acc(), -12);
}

#[test]
fn sub_undoes_add_without_saturation() {
    for (start, v) in [(0i16, 5i16), (-100, 300), (32000, 767), (-32768, 32767), (7, -7)] {
        let mut acc = start;
        assert!(!Node::add(&mut acc, v));
        assert!(!Node::sub(&mut acc, v));
        assert_eq!(acc, start);
    }
}

#[test]
fn add_and_sub_saturate() {
    let mut acc: i16 = 32767;
    assert!(Node::add(&mut acc, 1));
    assert_eq!(acc, i16::MAX);
    let mut acc: i16 = 32000;
    assert!(!Node::add(&mut acc, 767));
    assert_eq!(acc, 32767);
    let mut acc: i16 = -32768;
    assert!(Node::sub(&mut acc, 1));
    assert_eq!(acc, i16::MIN);
    let mut acc: i16 = 10;
    assert!(Node::sub(&mut acc, -32767));
    assert_eq!(acc, i16::MAX);
    let mut acc: i16 = 0;
    Node::mov(42, &mut acc);
    assert_eq!(acc, 42);
}

#[test]
fn swap_and_save() {
    let mut node = loaded("ADD 7\nSAV\nADD 1\nSWP");
    node.run(3).unwrap();
    assert_eq!((node.acc(), node.bak()), (8, 7));
    node.step().unwrap();
    assert_eq!((node.acc(), node.bak()), (7, 8));
}

#[test]
fn registers_store_and_load() {
    let mut node = loaded("MOV 9 $3\nMOV $3 ACC\nMOV -2 $255");
    node.run(3).unwrap();
    assert_eq!(node.register(3), 9);
    assert_eq!(node.register(255), -2);
    assert_eq!(node.register(0), 0);
    assert_eq!(node.acc(), 9);
}

#[test]
fn ports_read_zero_and_discard_writes() {
    let mut node = loaded("ADD 4\nMOV UP ACC\nADD 6\nMOV ACC LEFT\nMOV RIGHT DISPLAY");
    let effects = node.run(5).unwrap();
    assert_eq!(node.acc(), 6);
    assert_eq!(effects[4].displayed, Some(0));
    let (program, _) = assemble("MOV DOWN UP").unwrap();
    assert!(matches!(program[0], INSTRUCTIONS::MOV(LOCATION::DOWN, LOCATION::UP)));
}

#[test]
fn conditional_jumps() {
    let mut node = loaded("T:\nJEZ T");
    node.run(2).unwrap();
    assert_eq!(node.pointer(), 0);
    let mut node = loaded("SUB 1\nJLZ Z\nADD 50\nZ:\nJGZ NOWHERE");
    node.run(3).unwrap();
    assert_eq!(node.acc(), -1);
    assert_eq!(node.pointer(), 4);
    let eff = node.step().unwrap();
    assert_eq!(eff.next, 0);
    let mut node = loaded("ADD 1\nJGZ NOWHERE");
    node.step().unwrap();
    assert_eq!(node.step(), Err(ExecutionError::UnknownLabel));
    assert_eq!((node.acc(), node.pointer()), (1, 1));
}

#[test]
fn failed_run_keeps_state_of_failing_step() {
    let mut node = loaded("ADD 2\nJEZ NONE\nSUB 2\nJEZ NONE");
    assert_eq!(node.run(10), Err(ExecutionError::UnknownLabel));
    assert_eq!(node.pointer(), 3);
    assert_eq!(node.acc(), 0);
}

#[test]
fn empty_program() {
    assert_eq!(load_error(""), AssemblyError::EmptyProgram);
    let mut node = Node::new();
    assert_eq!(node.step(), Err(ExecutionError::EmptyProgram));
    assert_eq!(node.run(3), Err(ExecutionError::EmptyProgram));
    assert_eq!(node.program_len(), 0);
}

#[test]
fn line_errors() {
    assert_eq!(load_error("ADD 1\nMY LABEL:"), line_error(1, LineError::MalformedLabel));
    assert_eq!(load_error(":"), line_error(0, LineError::MalformedLabel));
    assert_eq!(load_error(" L:"), line_error(0, LineError::MalformedLabel));
    assert_eq!(load_error("NOP"), line_error(0, LineError::UnrecognizedOpcode));
    assert_eq!(load_error("add 1"), line_error(0, LineError::UnrecognizedOpcode));
    assert_eq!(load_error("ADD"), line_error(0, LineError::MissingOperand));
    assert_eq!(load_error("SUB   "), line_error(0, LineError::MissingOperand));
    assert_eq!(load_error("MOV ACC"), line_error(0, LineError::MissingOperand));
    assert_eq!(load_error("JGZ"), line_error(0, LineError::MissingOperand));
    assert_eq!(load_error("ADD x"), line_error(0, LineError::InvalidNumericOperand));
    assert_eq!(load_error("SUB 32768"), line_error(0, LineError::InvalidNumericOperand));
    assert_eq!(load_error("ADD 1\nADD -"), line_error(1, LineError::InvalidNumericOperand));
    assert_eq!(load_error("MOV FOO ACC"), line_error(0, LineError::UnknownLocationToken));
    assert_eq!(load_error("MOV ACC $"), line_error(0, LineError::UnknownLocationToken));
    assert_eq!(load_error("MOV ACC $-1"), line_error(0, LineError::UnknownLocationToken));
}

#[test]
fn first_error_wins() {
    assert_eq!(load_error("FOO\nA:\nA:"), line_error(0, LineError::UnrecognizedOpcode));
}

#[test]
fn failed_load_leaves_node_unchanged() {
    let mut node = loaded("ADD 3\nADD 4");
    node.step().unwrap();
    assert!(node.load("BAD").is_err());
    assert_eq!((node.acc(), node.pointer(), node.program_len()), (3, 1, 2));
    node.load("SUB 1").unwrap();
    assert_eq!((node.acc(), node.pointer(), node.program_len()), (3, 0, 1));
}

#[test]
fn blank_lines_and_crlf() {
    let (program, labels) = assemble("ADD 1\r\n\n  \nL:\r\n\tSUB\t2  \n").unwrap();
    assert_eq!(program.len(), 5);
    assert!(matches!(program[0], INSTRUCTIONS::ADD(1)));
    assert!(matches!(program[1], INSTRUCTIONS::IGNORE));
    assert!(matches!(program[2], INSTRUCTIONS::IGNORE));
    assert!(matches!(program[3], INSTRUCTIONS::IGNORE));
    assert!(matches!(program[4], INSTRUCTIONS::SUB(2)));
    assert_eq!(labels.get(&String::from("L")), Some(3));
}

#[test]
fn jump_instructions_keep_label_names() {
    let (program, _) = assemble("JMP A\nJEZ B\nJGZ C\nJLZ D extra").unwrap();
    assert!(matches!(&program[0], INSTRUCTIONS::JMP(l) if l == "A"));
    assert!(matches!(&program[1], INSTRUCTIONS::JEZ(l) if l == "B"));
    assert!(matches!(&program[2], INSTRUCTIONS::JGZ(l) if l == "C"));
    assert!(matches!(&program[3], INSTRUCTIONS::JLZ(l) if l == "D"));
}

#[test]
fn numbers() {
    let c = chars_of("-32768 32767 +12 0042 32768 -32769 1a 255 256 +255 -0");
    let t = token_spans(&c, 0, c.len());
    let i16s: Vec<Option<i16>> = t.iter().map(|&(a, b)| parse_i16(&c, a, b)).collect();
    assert_eq!(
        i16s,
        vec![
            Some(-32768),
            Some(32767),
            Some(12),
            Some(42),
            None,
            None,
            None,
            Some(255),
            Some(256),
            Some(255),
            Some(0)
        ]
    );
    let u8s: Vec<Option<u8>> = t.iter().map(|&(a, b)| parse_u8(&c, a, b)).collect();
    assert_eq!(
        u8s,
        vec![None, None, Some(12), Some(42), None, None, None, Some(255), None, Some(255), None]
    );
}

#[test]
fn lines_and_tokens() {
    let c = chars_of("a b\n\nc  d e\n");
    assert_eq!(line_spans(&c), vec![(0, 3), (4, 4), (5, 11)]);
    assert_eq!(token_spans(&c, 5, 11), vec![(5, 6), (8, 9), (10, 11)]);
    assert_eq!(chars_of("héllo").len(), 5);
}
