use tis_net::dir::Dir;
use tis_net::exec_node::{ExecNode, ExecNodeState, validate_text_dimensions};
use tis_net::program::{Dst, Op, ParseErr, ParseProblem, Src, parse_node_text};

fn err(text: &str) -> ParseErr {
    match parse_node_text(text) {
        Ok(_) => panic!("parsed"),
        Err(e) => e,
    }
}

fn ops(text: &str) -> Vec<(Op<u8>, u8)> {
    let p = parse_node_text(text).unwrap();
    (0..p.len()).map(|i| (p.get(i).op, p.get(i).src_line)).collect()
}

#[test]
fn undefined_label() {
    assert_eq!(err("JMP NOPE"), ParseErr { problem: ParseProblem::UndefinedLabel, line: 0 });
}

#[test]
fn not_enough_args() {
    assert_eq!(err("MOV ACC"), ParseErr { problem: ParseProblem::NotEnoughArgs, line: 0 });
    assert_eq!(err("NOP\nJMP"), ParseErr { problem: ParseProblem::NotEnoughArgs, line: 1 });
}

#[test]
fn too_many_args() {
    assert_eq!(err("NOP X"), ParseErr { problem: ParseProblem::TooManyArgs, line: 0 });
    assert_eq!(err("MOV 1 ACC ACC"), ParseErr { problem: ParseProblem::TooManyArgs, line: 0 });
}

#[test]
fn invalid_instruction() {
    assert_eq!(err("FOO"), ParseErr { problem: ParseProblem::InvalidInstruction, line: 0 });
    assert_eq!(err("nop"), ParseErr { problem: ParseProblem::InvalidInstruction, line: 0 });
}

#[test]
fn invalid_operands() {
    assert_eq!(err("MOV 1 2"), ParseErr { problem: ParseProblem::InvalidDst, line: 0 });
    assert_eq!(err("ADD X"), ParseErr { problem: ParseProblem::InvalidSrc, line: 0 });
    assert_eq!(err("ADD 128"), ParseErr { problem: ParseProblem::InvalidSrc, line: 0 });
    assert_eq!(err("ADD -129"), ParseErr { problem: ParseProblem::InvalidSrc, line: 0 });
    assert_eq!(err("ADD -"), ParseErr { problem: ParseProblem::InvalidSrc, line: 0 });
}

#[test]
fn line_error_wins_over_undefined_label() {
    assert_eq!(err("JMP NOPE\nFOO"), ParseErr { problem: ParseProblem::InvalidInstruction, line: 1 });
}

#[test]
fn first_line_error_wins() {
    assert_eq!(err("NOP\nFOO\nMOV ACC"), ParseErr { problem: ParseProblem::InvalidInstruction, line: 1 });
}

#[test]
fn parsing_is_idempotent() {
    for text in ["A:JMP A", "MOV 1 ACC\nADD LEFT", "JMP NOPE", "FOO", ""] {
        match (parse_node_text(text), parse_node_text(text)) {
            (Ok(a), Ok(b)) => {
                assert_eq!(a.len(), b.len());
                for i in 0..a.len() {
                    assert_eq!(a.get(i), b.get(i));
                }
            }
            (Err(a), Err(b)) => assert_eq!(a, b),
            _ => panic!("two parses differ"),
        }
    }
}

#[test]
fn self_loop_label_parses() {
    assert_eq!(ops("A:JMP A"), vec![(Op::Jmp(0), 0)]);
    assert!(matches!(ExecNode::with_text("A:JMP A").unwrap().state(), ExecNodeState::Ready(_)));
}

#[test]
fn operands_decode() {
    assert_eq!(
        ops("MOV UP DOWN\nMOV LEFT RIGHT\nMOV ANY LAST\nMOV LAST ANY\nMOV NIL NIL\nMOV -5 ACC\nADD +7\nSUB ACC\nJRO -1"),
        vec![
            (Op::Mov(Src::Dir(Dir::Up), Dst::Dir(Dir::Down)), 0),
            (Op::Mov(Src::Dir(Dir::Left), Dst::Dir(Dir::Right)), 1),
            (Op::Mov(Src::Any, Dst::Last), 2),
            (Op::Mov(Src::Last, Dst::Any), 3),
            (Op::Mov(Src::Nil, Dst::Nil), 4),
            (Op::Mov(Src::Imm(-5), Dst::Acc), 5),
            (Op::Add(Src::Imm(7)), 6),
            (Op::Sub(Src::Acc), 7),
            (Op::Jro(Src::Imm(-1)), 8),
        ]
    );
}

#[test]
fn integer_limits() {
    assert_eq!(ops("ADD 127\nADD -128\nADD 007"), vec![
        (Op::Add(Src::Imm(127)), 0),
        (Op::Add(Src::Imm(-128)), 1),
        (Op::Add(Src::Imm(7)), 2),
    ]);
}

#[test]
fn comments_blank_lines_and_labels() {
    assert_eq!(
        ops("# header\n\nSTART: NOP # note\nLOOP:\n  SWP\t# SAV\n"),
        vec![(Op::Nop, 2), (Op::Swp, 4)]
    );
    assert_eq!(err("NOP\n  SWP\tSAV"), ParseErr { problem: ParseProblem::TooManyArgs, line: 1 });
}

#[test]
fn labels_bind_to_next_instruction() {
    assert_eq!(
        ops("NOP\nA:\nB:NEG\nJMP A\nJEZ B\nJNZ C\nJGZ A\nJLZ C\nC:"),
        vec![
            (Op::Nop, 0),
            (Op::Neg, 2),
            (Op::Jmp(1), 3),
            (Op::Jez(1), 4),
            (Op::Jnz(7), 5),
            (Op::Jgz(1), 6),
            (Op::Jlz(7), 7),
        ]
    );
}

#[test]
fn last_label_declaration_wins() {
    assert_eq!(ops("A:NOP\nA:NOP\nJMP A"), vec![(Op::Nop, 0), (Op::Nop, 1), (Op::Jmp(1), 2)]);
}

#[test]
fn empty_text_is_empty_program() {
    assert_eq!(parse_node_text("").unwrap().len(), 0);
    assert!(matches!(ExecNode::with_text("  # x\n").unwrap().state(), ExecNodeState::Empty));
    assert!(matches!(ExecNode::empty().state(), ExecNodeState::Empty));
    assert_eq!(ExecNode::empty().text(), "");
}

#[test]
fn errored_state_keeps_text() {
    let node = ExecNode::with_text("NOP\nFOO").unwrap();
    assert_eq!(node.text(), "NOP\nFOO");
    match node.state() {
        ExecNodeState::Errored(e) => assert_eq!(*e, ParseErr { problem: ParseProblem::InvalidInstruction, line: 1 }),
        _ => panic!("not errored"),
    }
}

#[test]
fn problem_tags() {
    assert_eq!(ParseProblem::NotEnoughArgs.to_str(), "NOT ENOUGH ARGS");
    assert_eq!(ParseProblem::TooManyArgs.to_str(), "TOO MANY ARGS");
    assert_eq!(ParseProblem::InvalidSrc.to_str(), "INVALID SOURCE ARG");
    assert_eq!(ParseProblem::InvalidDst.to_str(), "INVALID DESTINATION ARG");
    assert_eq!(ParseProblem::InvalidInstruction.to_str(), "INVALID OPCODE");
    assert_eq!(ParseProblem::UndefinedLabel.to_str(), "UNDEFINED LABEL");
}

#[test]
fn text_dimensions() {
    assert!(validate_text_dimensions(""));
    assert!(validate_text_dimensions("123456789012345678\nx"));
    assert!(!validate_text_dimensions("1234567890123456789"));
    assert!(!validate_text_dimensions(&"\n".repeat(15)));
    assert!(validate_text_dimensions(&"\n".repeat(14)));
}

#[test]
fn directions() {
    assert_eq!(Dir::Up.inverse(), Dir::Down);
    assert_eq!(Dir::Down.inverse(), Dir::Up);
    assert_eq!(Dir::Left.inverse(), Dir::Right);
    assert_eq!(Dir::Right.inverse(), Dir::Left);
    assert_eq!(Dir::Left.rotate_right(), Dir::Up);
    assert_eq!(Dir::Up.rotate_right(), Dir::Right);
    assert_eq!(Dir::Right.rotate_right(), Dir::Down);
    assert_eq!(Dir::Down.rotate_right(), Dir::Left);
}
