use hrm::error::{ParseError, ProgramError};
use hrm::program::{Op, Program, Value};
use hrm::solution::Solution;

const HEADER: &str = "-- HUMAN RESOURCE MACHINE PROGRAM --";

fn load(body: &str) -> Solution {
    let text = format!("{HEADER}\n{body}");
    Solution::parse(&text).unwrap()
}

fn ints(xs: &[i16]) -> Vec<Value> {
    xs.iter().map(|&x| Value::Int(x)).collect()
}

#[test]
fn inbox_outbox_copies_five() {
    let sol = load("INBOX\nOUTBOX\n");
    let mut prog = Program::new(&sol);
    let (cycles, out) = prog.run(&ints(&[5])).unwrap();
    assert_eq!(cycles, 2);
    assert_eq!(out, ints(&[5]));
}

#[test]
fn inbox_outbox_copies_seven() {
    let sol = load("INBOX\nOUTBOX\n");
    let mut prog = Program::new(&sol);
    let (cycles, out) = prog.run(&ints(&[7])).unwrap();
    assert_eq!(cycles, 2);
    assert_eq!(out, ints(&[7]));
}

#[test]
fn inbox_outbox_keeps_negative_value() {
    let sol = load("INBOX\nOUTBOX\nINBOX\nOUTBOX\n");
    let mut prog = Program::new(&sol);
    let (cycles, out) = prog.run(&ints(&[-32768, 32767])).unwrap();
    assert_eq!(cycles, 4);
    assert_eq!(out, ints(&[-32768, 32767]));
}

#[test]
fn outbox_first_fails_on_empty_accumulator() {
    let sol = load("OUTBOX\n");
    let mut prog = Program::new(&sol);
    assert!(matches!(prog.run(&ints(&[1])), Err(ProgramError::EmptyAccumulator)));
}

#[test]
fn inbox_without_input_fails() {
    let sol = load("INBOX\n");
    let mut prog = Program::new(&sol);
    assert!(matches!(prog.run(&[]), Err(ProgramError::EndOfInput)));
}

#[test]
fn undefined_label_fails_when_reached() {
    let sol = load("INBOX\nOUTBOX\nJUMP missing\n");
    assert_eq!(sol.len(), 3);
    let mut prog = Program::new(&sol);
    match prog.run(&ints(&[1])) {
        Err(ProgramError::UndefinedLabel(l)) => assert_eq!(l, "missing"),
        other => panic!("unexpected result {other:?}"),
    }
}

#[test]
fn undefined_label_not_reached_is_harmless() {
    let sol = load("INBOX\nOUTBOX\nJUMP end\nJUMP missing\nend:\n");
    let mut prog = Program::new(&sol);
    let (cycles, out) = prog.run(&ints(&[4])).unwrap();
    assert_eq!(cycles, 3);
    assert_eq!(out, ints(&[4]));
}

#[test]
fn copy_loop_ends_when_input_runs_out() {
    let sol = load("a:\nINBOX\nOUTBOX\nJUMP a\n");
    let mut prog = Program::new(&sol);
    assert!(matches!(prog.run(&ints(&[1, 2, 3])), Err(ProgramError::EndOfInput)));
}

#[test]
fn endless_jump_exceeds_cycle_limit() {
    let sol = load("a:\nJUMP a\n");
    let mut prog = Program::new(&sol);
    assert!(matches!(prog.run(&ints(&[1, 2, 3])), Err(ProgramError::MaxCyclesExceeded)));
}

#[test]
fn jump_lands_exactly_on_label() {
    let sol = load("INBOX\nJUMP b\nINBOX\nb:\nOUTBOX\n");
    let mut prog = Program::new(&sol);
    let (cycles, out) = prog.run(&ints(&[1, 2])).unwrap();
    assert_eq!(cycles, 3);
    assert_eq!(out, ints(&[1]));
}

#[test]
fn backward_jump_repeats() {
    let sol = load("INBOX\nOUTBOX\nb:\nINBOX\nOUTBOX\n");
    assert_eq!(sol.lookup(&"b".to_string()), Some(2));
    assert_eq!(sol.lookup(&"c".to_string()), None);
    let labels = sol.labels();
    assert_eq!(labels.len(), 1);
    assert_eq!(labels[0].0, "b");
    assert_eq!(labels[0].1, 2);
}

#[test]
fn straight_line_runs_each_instruction_once() {
    let sol = load("INBOX\nOUTBOX\nINBOX\nINBOX\nOUTBOX\n");
    let mut prog = Program::new(&sol);
    let (cycles, out) = prog.run(&ints(&[1, 2, 3])).unwrap();
    assert_eq!(cycles, sol.len());
    assert_eq!(out, ints(&[1, 3]));
}

#[test]
fn label_at_end_finishes_normally() {
    let sol = load("INBOX\nJUMP end\nOUTBOX\nend:\n");
    let mut prog = Program::new(&sol);
    let (cycles, out) = prog.run(&ints(&[1])).unwrap();
    assert_eq!(cycles, 2);
    assert!(out.is_empty());
}

#[test]
fn rerun_gives_same_result() {
    let sol = load("a:\nINBOX\nOUTBOX\nJUMP a\nend:\n");
    let sol2 = load("INBOX\nOUTBOX\nINBOX\nOUTBOX\n");
    let mut prog = Program::new(&sol2);
    let first = prog.run(&ints(&[3, 4])).unwrap();
    let second = prog.run(&ints(&[3, 4])).unwrap();
    assert_eq!(first, second);
    assert_eq!(first, (4, ints(&[3, 4])));
    assert!(prog.run(&ints(&[3])).is_err());
    assert_eq!(prog.run(&ints(&[3, 4])).unwrap(), first);
    let mut other = Program::new(&sol);
    assert!(matches!(other.run(&ints(&[3])), Err(ProgramError::EndOfInput)));
}

#[test]
fn empty_program_runs_zero_cycles() {
    let sol = load("");
    assert_eq!(sol.len(), 0);
    let mut prog = Program::new(&sol);
    assert_eq!(prog.run(&ints(&[1])).unwrap(), (0, vec![]));
}

#[test]
fn missing_header() {
    assert!(matches!(Solution::parse(""), Err(ParseError::MissingHeader)));
    assert!(matches!(Solution::parse("\n\n"), Err(ParseError::MissingHeader)));
}

#[test]
fn invalid_header() {
    assert!(matches!(Solution::parse("INBOX\nOUTBOX\n"), Err(ParseError::InvalidHeader)));
    let indented = format!("  {HEADER}\nINBOX\n");
    assert!(matches!(Solution::parse(&indented), Err(ParseError::InvalidHeader)));
}

#[test]
fn header_after_blank_lines_and_crlf() {
    let text = format!("\n\n{HEADER}\r\n  INBOX  \r\n\r\n   \n\tOUTBOX\r\n");
    let sol = Solution::parse(&text).unwrap();
    assert_eq!(sol.len(), 2);
    assert!(matches!(sol.ops()[0], Op::Inbox));
    assert!(matches!(sol.ops()[1], Op::Outbox));
}

#[test]
fn unknown_instruction_names_line() {
    match Solution::parse(&format!("{HEADER}\nINBOX\nCOPYTO 3\n")) {
        Err(ParseError::UnexpectedToken(t)) => assert_eq!(t, "COPYTO 3"),
        other => panic!("unexpected result {other:?}"),
    }
}

#[test]
fn trailing_token_is_named() {
    match Solution::parse(&format!("{HEADER}\nINBOX  extra more\n")) {
        Err(ParseError::UnexpectedToken(t)) => assert_eq!(t, "extra"),
        other => panic!("unexpected result {other:?}"),
    }
    match Solution::parse(&format!("{HEADER}\nJUMP a b\n")) {
        Err(ParseError::UnexpectedToken(t)) => assert_eq!(t, "b"),
        other => panic!("unexpected result {other:?}"),
    }
}

#[test]
fn jump_without_label_is_rejected() {
    match Solution::parse(&format!("{HEADER}\nJUMP\n")) {
        Err(ParseError::UnexpectedToken(t)) => assert_eq!(t, "JUMP"),
        other => panic!("unexpected result {other:?}"),
    }
}

#[test]
fn duplicate_label_is_rejected() {
    match Solution::parse(&format!("{HEADER}\na:\nINBOX\na:\nOUTBOX\n")) {
        Err(ParseError::DuplicateLabel(l)) => assert_eq!(l, "a"),
        other => panic!("unexpected result {other:?}"),
    }
}

#[test]
fn op_parse_forms() {
    assert!(matches!(Op::parse("INBOX"), Ok(Op::Inbox)));
    assert!(matches!(Op::parse("OUTBOX"), Ok(Op::Outbox)));
    match Op::parse("JUMP   loop") {
        Ok(Op::Jump(l)) => assert_eq!(l, "loop"),
        other => panic!("unexpected result {other:?}"),
    }
    match "inbox".parse::<Op>() {
        Err(ParseError::UnexpectedToken(t)) => assert_eq!(t, "inbox"),
        other => panic!("unexpected result {other:?}"),
    }
}

#[test]
fn error_messages() {
    assert_eq!(
        ProgramError::UndefinedLabel("missing".to_string()).message(),
        "Undefined label \"missing\""
    );
    assert_eq!(ProgramError::MaxCyclesExceeded.message(), "Maximum cycle count exceeded");
    assert_eq!(ProgramError::EndOfInput.message(), "Attempted to read past the end of the input");
    assert_eq!(
        ProgramError::EmptyAccumulator.message(),
        "Attempted to run an instruction that reads from the accumulator, but the accumulator is empty"
    );
    assert_eq!(ParseError::InvalidHeader.message(), "Invalid program header");
    assert_eq!(ParseError::MissingHeader.message(), "Program must start with a HRM header");
    assert_eq!(ParseError::UnexpectedToken("x".to_string()).message(), "Unexpected token \"x\"");
    assert_eq!(ParseError::DuplicateLabel("a".to_string()).message(), "Duplicate label \"a\"");
    let io = std::io::Error::new(std::io::ErrorKind::NotFound, "no such file");
    assert_eq!(ParseError::IoError(io).message(), "no such file");
}
