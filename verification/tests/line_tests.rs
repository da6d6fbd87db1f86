use z33_asm::expression::Node;
use z33_asm::line::parse_line;
use z33_asm::line::parse_program;
use z33_asm::line::split_lines;
use z33_asm::line::DirectiveArgument;
use z33_asm::line::DirectiveKind;
use z33_asm::line::InstructionArgument;
use z33_asm::line::InstructionKind;
use z33_asm::line::Line;
use z33_asm::line::LineContent;
use z33_asm::line::Reg;
use z33_asm::location::Located;
use z33_asm::location::Span;

fn bare(n: Node) -> Located<Box<Node>> {
    Located {
        inner: Box::new(n),
        location: Span { offset: 0, length: 0 },
    }
}

#[test]
fn parse_empty_line_test() {
    let line = parse_line("").unwrap();
    assert_eq!(line, Line::default());
}

#[test]
fn parse_comment_line_test() {
    let line = parse_line("# hello").unwrap();
    assert_eq!(
        line,
        Line {
            comment: Some("# hello".into()),
            ..Default::default()
        }
    );
}

#[test]
fn parse_symbol_line_test() {
    let line = parse_line("hello:world: duplicate: duplicate:  ").unwrap();
    assert_eq!(
        line,
        Line {
            symbols: ["hello", "world", "duplicate", "duplicate"]
                .iter()
                .cloned()
                .map(Into::into)
                .collect(),
            ..Default::default()
        }
    );
}

#[test]
fn parse_full_line_test() {
    let line = parse_line("foo: bar: .space 30 + 5 # comment").unwrap();
    assert_eq!(
        line,
        Line {
            symbols: ["foo", "bar"].iter().cloned().map(Into::into).collect(),
            content: Some(LineContent::Directive {
                kind: DirectiveKind::Space,
                argument: DirectiveArgument::Expression(Node::Sum(
                    bare(Node::Literal(30)),
                    bare(Node::Literal(5))
                )),
            }),
            comment: Some("# comment".into()),
        }
    );
}

#[test]
fn split_lines_test() {
    let input = "hello \\\nworld\nthis is a new line\nthis has escaped chars: \\r \\n \\t \\\"";
    let lines = split_lines(input).unwrap();
    assert_eq!(
        lines,
        vec![
            "hello \\\nworld",
            "this is a new line",
            "this has escaped chars: \\r \\n \\t \\\""
        ]
    );
}

#[test]
fn parse_program_test() {
    let input = "\n            str: .space \"some multiline \\\nstring\"\n            main: # beginning of program\n                add %a, %b\n        ";

    let lines = parse_program(input).unwrap();
    assert_eq!(
        lines,
        vec![
            Line::default(),
            Line::default().symbol("str").directive(
                DirectiveKind::Space,
                DirectiveArgument::StringLiteral("some multiline string".into())
            ),
            Line::default()
                .symbol("main")
                .comment("# beginning of program"),
            Line::default().instruction(
                InstructionKind::Add,
                vec![
                    InstructionArgument::Register(Reg::A),
                    InstructionArgument::Register(Reg::B)
                ]
            ),
            Line::default(),
        ]
    );
}

#[test]
fn parse_instruction_arguments_test() {
    let line = parse_line("ld [%a+2], %b").unwrap();
    assert_eq!(
        line.content,
        Some(LineContent::Instruction {
            kind: InstructionKind::Ld,
            arguments: vec![
                InstructionArgument::Indexed(Reg::A, Node::Literal(2)),
                InstructionArgument::Register(Reg::B),
            ],
        })
    );

    let line = parse_line("jmp [100]").unwrap();
    assert_eq!(
        line.content,
        Some(LineContent::Instruction {
            kind: InstructionKind::Jmp,
            arguments: vec![InstructionArgument::Direct(Node::Literal(100))],
        })
    );

    let line = parse_line("push [%sp]").unwrap();
    assert_eq!(
        line.content,
        Some(LineContent::Instruction {
            kind: InstructionKind::Push,
            arguments: vec![InstructionArgument::Indirect(Reg::Sp)],
        })
    );
}

#[test]
fn mnemonic_case_insensitive_test() {
    let line = parse_line("AdD %a, %b").unwrap();
    assert_eq!(
        line.content,
        Some(LineContent::Instruction {
            kind: InstructionKind::Add,
            arguments: vec![
                InstructionArgument::Register(Reg::A),
                InstructionArgument::Register(Reg::B),
            ],
        })
    );
}

#[test]
fn unknown_mnemonic_fails_test() {
    assert!(parse_line("frobnicate %a").is_none());
}

#[test]
fn labelable_argument_test() {
    let line = parse_line("jmp main").unwrap();
    assert_eq!(
        line.content,
        Some(LineContent::Instruction {
            kind: InstructionKind::Jmp,
            arguments: vec![InstructionArgument::Value(Node::Variable("main".into()))],
        })
    );
}
