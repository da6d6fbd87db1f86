use z33_asm::expression::Node;
use z33_asm::layout::layout_memory;
use z33_asm::layout::MemoryLayoutError;
use z33_asm::layout::Placement;
use z33_asm::layout::PROGRAM_START;
use z33_asm::line::DirectiveArgument;
use z33_asm::line::DirectiveKind;
use z33_asm::line::InstructionArgument;
use z33_asm::line::InstructionKind::Add;
use z33_asm::line::InstructionKind::Jmp;
use z33_asm::line::Line;
use z33_asm::line::Reg;
use z33_asm::expression::Context;

fn expr(v: i128) -> DirectiveArgument {
    DirectiveArgument::Expression(Node::Literal(v))
}

fn lit(s: &str) -> DirectiveArgument {
    DirectiveArgument::StringLiteral(s.to_string())
}

#[test]
fn place_labels_simple_test() {
    let program: Vec<Line> = vec![
        Line::default().symbol("main").instruction(
            Add,
            vec![
                InstructionArgument::Register(Reg::A),
                InstructionArgument::Register(Reg::B),
            ],
        ),
        Line::default().symbol("loop").instruction(
            Jmp,
            vec![InstructionArgument::Value(Node::Variable("main".into()))],
        ),
    ];

    let labels = layout_memory(program).unwrap().labels;
    assert_eq!(labels.len(), 2);
    assert_eq!(labels.get("main"), Some(PROGRAM_START));
    assert_eq!(labels.get("loop"), Some(PROGRAM_START + 1));
}

#[test]
fn place_labels_addr_test() {
    let program: Vec<Line> = vec![
        Line::default().directive(DirectiveKind::Addr, expr(10)),
        Line::default().symbol("main").instruction(
            Jmp,
            vec![InstructionArgument::Value(Node::Variable("main".into()))],
        ),
    ];

    let labels = layout_memory(program).unwrap().labels;
    assert_eq!(labels.len(), 1);
    assert_eq!(labels.get("main"), Some(10));
}

#[test]
fn place_labels_space_test() {
    let program: Vec<Line> = vec![
        Line::default()
            .symbol("first")
            .directive(DirectiveKind::Space, expr(10)),
        Line::default()
            .symbol("second")
            .directive(DirectiveKind::Space, expr(5)),
        Line::default().symbol("main").instruction(
            Jmp,
            vec![InstructionArgument::Value(Node::Variable("main".into()))],
        ),
    ];

    let layout = layout_memory(program).unwrap();
    assert_eq!(layout.labels.len(), 3);
    assert_eq!(layout.labels.get("first"), Some(PROGRAM_START));
    assert_eq!(layout.labels.get("second"), Some(PROGRAM_START + 10));
    assert_eq!(layout.labels.get("main"), Some(PROGRAM_START + 15));
    for k in 0..15 {
        assert_eq!(layout.memory.get(PROGRAM_START + k), Some(&Placement::Reserved));
    }
}

#[test]
fn place_labels_word_test() {
    let program: Vec<Line> = vec![
        Line::default()
            .symbol("first")
            .directive(DirectiveKind::Word, expr(123)),
        Line::default()
            .symbol("second")
            .directive(DirectiveKind::Word, expr(456)),
        Line::default().symbol("main").instruction(
            Jmp,
            vec![InstructionArgument::Value(Node::Variable("main".into()))],
        ),
    ];

    let labels = layout_memory(program).unwrap().labels;
    assert_eq!(labels.len(), 3);
    assert_eq!(labels.get("first"), Some(PROGRAM_START));
    assert_eq!(labels.get("second"), Some(PROGRAM_START + 1));
    assert_eq!(labels.get("main"), Some(PROGRAM_START + 2));
}

#[test]
fn place_labels_string_test() {
    let program: Vec<Line> = vec![
        Line::default()
            .symbol("first")
            .directive(DirectiveKind::String, lit("hello")),
        // the second string holds 12 Unicode scalars
        Line::default()
            .symbol("second")
            .directive(DirectiveKind::String, lit("Émoticône: 🚙")),
        Line::default().symbol("main").instruction(
            Jmp,
            vec![InstructionArgument::Value(Node::Variable("main".into()))],
        ),
    ];

    let labels = layout_memory(program).unwrap().labels;
    assert_eq!(labels.len(), 3);
    assert_eq!(labels.get("first"), Some(PROGRAM_START));
    assert_eq!(labels.get("second"), Some(PROGRAM_START + 5));
    assert_eq!(labels.get("main"), Some(PROGRAM_START + 5 + 12));
}

#[test]
fn duplicate_label_test() {
    let program: Vec<Line> = vec![
        Line::default().symbol("hello"),
        Line::default().symbol("hello"),
    ];

    assert_eq!(
        layout_memory(program).err(),
        Some(MemoryLayoutError::DuplicateLabel {
            label: "hello".into()
        })
    );
}

#[test]
fn invalid_directive_argument_test() {
    let program: Vec<Line> = vec![Line::default().directive(DirectiveKind::String, expr(3))];

    assert_eq!(
        layout_memory(program).err(),
        Some(MemoryLayoutError::InvalidDirectiveArgument {
            kind: DirectiveKind::String,
        })
    );

    let program: Vec<Line> = vec![Line::default().directive(DirectiveKind::Space, lit("hello"))];

    assert_eq!(
        layout_memory(program).err(),
        Some(MemoryLayoutError::InvalidDirectiveArgument {
            kind: DirectiveKind::Space,
        })
    );

    let program: Vec<Line> = vec![Line::default().directive(DirectiveKind::Addr, lit("hello"))];

    assert_eq!(
        layout_memory(program).err(),
        Some(MemoryLayoutError::InvalidDirectiveArgument {
            kind: DirectiveKind::Addr,
        })
    );
}

#[test]
fn memory_overlap_test() {
    let program: Vec<Line> = vec![
        Line::default().directive(DirectiveKind::Addr, expr(10)),
        // this takes 5 cells, filling addresses 10 to 14
        Line::default().directive(DirectiveKind::String, lit("hello")),
        Line::default().directive(DirectiveKind::Addr, expr(14)),
        // this overlaps with the second "l"
        Line::default().directive(DirectiveKind::Word, expr(0)),
    ];

    assert_eq!(
        layout_memory(program).err(),
        Some(MemoryLayoutError::MemoryOverlap { address: 14 })
    );
}

#[test]
fn two_labels_one_address_test() {
    // two labels may share one address; the label table stays a partial
    // function from names to addresses
    let program: Vec<Line> = vec![
        Line::default().symbol("here"),
        Line::default()
            .symbol("there")
            .directive(DirectiveKind::Word, expr(7)),
    ];
    let labels = layout_memory(program).unwrap().labels;
    assert_eq!(labels.get("here"), Some(PROGRAM_START));
    assert_eq!(labels.get("there"), Some(PROGRAM_START));
}

#[test]
fn layout_is_deterministic_test() {
    let build = || {
        vec![
            Line::default().symbol("a").directive(DirectiveKind::Word, expr(1)),
            Line::default().symbol("b").directive(DirectiveKind::Space, expr(3)),
        ]
    };
    let l1 = layout_memory(build()).unwrap();
    let l2 = layout_memory(build()).unwrap();
    assert_eq!(l1.labels.len(), l2.labels.len());
    assert_eq!(l1.labels.get("a"), l2.labels.get("a"));
    assert_eq!(l1.labels.get("b"), l2.labels.get("b"));
    assert_eq!(l1.memory_report(), l2.memory_report());
}

#[test]
fn space_count_evaluation_error_test() {
    // a `.space` size may not mention labels: it is evaluated against the
    // empty context
    let program: Vec<Line> = vec![Line::default().directive(
        DirectiveKind::Space,
        DirectiveArgument::Expression(Node::Variable("later".into())),
    )];
    assert_eq!(
        layout_memory(program).err(),
        Some(MemoryLayoutError::DirectiveArgumentEvaluation {
            kind: DirectiveKind::Space,
            inner: z33_asm::expression::EvaluationError::UndefinedVariable {
                variable: "later".into()
            },
        })
    );
}

#[test]
fn addr_negative_is_overflow_test() {
    // narrowing a negative address fails with an overflow
    let program: Vec<Line> = vec![Line::default().directive(
        DirectiveKind::Addr,
        DirectiveArgument::Expression(Node::Literal(-1)),
    )];
    assert_eq!(
        layout_memory(program).err(),
        Some(MemoryLayoutError::DirectiveArgumentEvaluation {
            kind: DirectiveKind::Addr,
            inner: z33_asm::expression::EvaluationError::Overflow,
        })
    );
}

#[test]
fn memory_report_test() {
    let program: Vec<Line> = vec![
        Line::default().directive(DirectiveKind::Word, expr(12)),
        Line::default().directive(DirectiveKind::Space, expr(1)),
        Line::default().directive(DirectiveKind::String, lit("h")),
    ];
    let layout = layout_memory(program).unwrap();
    let report = layout.memory_report();
    assert_eq!(report.len(), 3);
    assert_eq!(report[0], (PROGRAM_START, ".word: 12".to_string()));
    assert_eq!(report[1], (PROGRAM_START + 1, "SPACE".to_string()));
    assert_eq!(report[2], (PROGRAM_START + 2, "'h'".to_string()));
}

#[test]
fn labels_resolve_as_context_test() {
    let program: Vec<Line> = vec![
        Line::default().symbol("main").directive(DirectiveKind::Word, expr(1)),
    ];
    let layout = layout_memory(program).unwrap();
    assert_eq!(layout.labels.resolve_variable("main"), Some(PROGRAM_START as i128));
    assert_eq!(layout.labels.resolve_variable("other"), None);
}

#[test]
fn word_with_string_argument_test() {
    // layout re-checks directive argument shapes defensively: `.word`
    // takes an expression, never a string literal
    let program: Vec<Line> = vec![Line::default().directive(DirectiveKind::Word, lit("three"))];
    assert_eq!(
        layout_memory(program).err(),
        Some(MemoryLayoutError::InvalidDirectiveArgument {
            kind: DirectiveKind::Word,
        })
    );
}

#[test]
fn control_scalar_report_test() {
    // a control scalar in a string cell renders in escape form
    let program: Vec<Line> = vec![Line::default().directive(DirectiveKind::String, lit("\u{1}"))];
    let layout = layout_memory(program).unwrap();
    let report = layout.memory_report();
    assert_eq!(report[0].1, "'\\u{1}'".to_string());
}
