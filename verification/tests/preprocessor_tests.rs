use z33_asm::location::Located;
use z33_asm::location::Span;
use z33_asm::preprocessor::parse;
use z33_asm::preprocessor::parse_condition;
use z33_asm::preprocessor::parse_definition;
use z33_asm::preprocessor::parse_directive_argument;
use z33_asm::preprocessor::parse_inclusion;
use z33_asm::preprocessor::parse_raw;
use z33_asm::preprocessor::preprocess;
use z33_asm::preprocessor::ConditionBranch;
use z33_asm::preprocessor::InMemoryFilesystem;
use z33_asm::preprocessor::Node;
use z33_asm::preprocessor::PreprocessorError;

fn at<T>(inner: T, offset: usize, length: usize) -> Located<T> {
    Located {
        inner,
        location: Span { offset, length },
    }
}

#[test]
fn parse_directive_argument_test() {
    let chars: Vec<char> = "foo".chars().collect();
    let res = parse_directive_argument(&chars, 0);
    assert_eq!(res, Some(("foo".to_string(), 3)));
}

#[test]
fn parse_definition_test() {
    let res = parse_definition("#define foo bar");
    assert_eq!(
        res,
        Some((
            Node::Definition {
                key: at("foo".to_string(), 8, 3),
                content: Some(at("bar".to_string(), 12, 3)),
            },
            15
        ))
    );

    let res = parse_definition("#define foo");
    assert_eq!(
        res,
        Some((
            Node::Definition {
                key: at("foo".to_string(), 8, 3),
                content: None,
            },
            11
        ))
    );

    let res = parse_definition("#define trailing ");
    assert_eq!(
        res,
        Some((
            Node::Definition {
                key: at("trailing".to_string(), 8, 8),
                content: None,
            },
            17
        ))
    );
}

#[test]
fn parse_inclusion_test() {
    let input = format!("#incl{}", "ude \"foo\"");
    let res = parse_inclusion(&input);
    assert_eq!(
        res,
        Some((
            Node::Inclusion {
                path: at("foo".to_string(), 9, 5)
            },
            14
        ))
    );
}

#[test]
fn parse_raw_test() {
    // it extracts the line
    let (body, rest) = parse_raw("line").unwrap();
    assert_eq!(rest, 4);
    assert_eq!(
        body,
        Node::Raw {
            content: "line".to_string()
        }
    );

    // gets only one line
    let (body, rest) = parse_raw("line\nline").unwrap();
    assert_eq!(rest, 4);
    assert_eq!(
        body,
        Node::Raw {
            content: "line".to_string()
        }
    );

    // does not get directives
    assert!(parse_raw("#directive").is_none());
}

#[test]
fn parse_simple_test() {
    let input = format!(
        "hello\n#incl{}\n#define bar baz\nworld\n#error \"deprecated\"\n#undefine bar\n#define test\n",
        "ude \"foo\""
    );
    let (body, rest) = parse(&input);
    assert_eq!(rest, input.chars().count());

    assert_eq!(
        body,
        vec![
            at(
                Node::Raw {
                    content: "hello".to_string()
                },
                0,
                5
            ),
            at(
                Node::Inclusion {
                    path: at("foo".to_string(), 9, 5)
                },
                6,
                14
            ),
            at(
                Node::Definition {
                    key: at("bar".to_string(), 8, 3),
                    content: Some(at("baz".to_string(), 12, 3)),
                },
                21,
                15
            ),
            at(
                Node::Raw {
                    content: "world".to_string()
                },
                37,
                5
            ),
            at(
                Node::Error {
                    message: at("deprecated".to_string(), 7, 12)
                },
                43,
                19
            ),
            at(
                Node::Undefine {
                    key: at("bar".to_string(), 10, 3),
                },
                63,
                13
            ),
            at(
                Node::Definition {
                    key: at("test".to_string(), 8, 4),
                    content: None,
                },
                77,
                12
            ),
            at(
                Node::Raw {
                    content: "".to_string(),
                },
                90,
                0
            ),
        ]
    );
}

#[test]
fn parse_weird_test() {
    let input = format!(
        "hello\n#  incl{}   \"foo\"//comment\n# define   bar   baz  // comment\nworld\n#   error    \"deprecated\"\n# undefine  bar //comment\n#   define  test // comment\n\nempty line\n",
        "ude"
    );
    let (body, rest) = parse(&input);
    assert_eq!(rest, input.chars().count());

    assert_eq!(
        body,
        vec![
            at(
                Node::Raw {
                    content: "hello".to_string()
                },
                0,
                5
            ),
            at(
                Node::Inclusion {
                    path: at("foo".to_string(), 13, 5)
                },
                6,
                27
            ),
            at(
                Node::Definition {
                    key: at("bar".to_string(), 11, 3),
                    content: Some(at("baz".to_string(), 17, 3)),
                },
                34,
                32
            ),
            at(
                Node::Raw {
                    content: "world".to_string()
                },
                67,
                5
            ),
            at(
                Node::Error {
                    message: at("deprecated".to_string(), 13, 12)
                },
                73,
                25
            ),
            at(
                Node::Undefine {
                    key: at("bar".to_string(), 12, 3),
                },
                99,
                25
            ),
            at(
                Node::Definition {
                    key: at("test".to_string(), 12, 4),
                    content: None,
                },
                125,
                27
            ),
            at(
                Node::Raw {
                    content: "".to_string()
                },
                153,
                0
            ),
            at(
                Node::Raw {
                    content: "empty line".to_string()
                },
                154,
                10
            ),
            at(
                Node::Raw {
                    content: "".to_string()
                },
                165,
                0
            ),
        ]
    );
}

#[test]
fn parse_condition_test() {
    let input = "#if true\nfoo\n#if false\nbar\n#endif\n#elif true // with a comment\nfoobar\n#else\nbaz\n#endif";

    // check a few positions used below
    let chars: Vec<char> = input.chars().collect();
    assert_eq!(chars[4..8].iter().collect::<String>(), "true"); // line 1
    assert_eq!(chars[9..12].iter().collect::<String>(), "foo"); // line 2
    assert_eq!(chars[40..44].iter().collect::<String>(), "true"); // line 6
    assert_eq!(chars[63..69].iter().collect::<String>(), "foobar"); // line 7
    assert_eq!(chars[76..79].iter().collect::<String>(), "baz"); // line 9

    let (condition, rest) = parse_condition(input).unwrap();
    assert_eq!(rest, input.chars().count());

    assert_eq!(
        condition,
        Node::Condition {
            branches: vec![
                ConditionBranch {
                    condition: at("true".to_string(), 4, 4),
                    body: at(
                        vec![
                            at(
                                Node::Raw {
                                    content: "foo".to_string()
                                },
                                0,
                                3
                            ),
                            at(
                                Node::Condition {
                                    branches: vec![ConditionBranch {
                                        condition: at("false".to_string(), 4, 5),
                                        body: at(
                                            vec![at(
                                                Node::Raw {
                                                    content: "bar".to_string()
                                                },
                                                0,
                                                3
                                            )],
                                            10,
                                            4
                                        )
                                    }],
                                    fallback: None,
                                },
                                4,
                                20
                            ),
                        ],
                        9,
                        25
                    )
                },
                ConditionBranch {
                    condition: at("true".to_string(), 40, 4),
                    body: at(
                        vec![at(
                            Node::Raw {
                                content: "foobar".to_string()
                            },
                            0,
                            6
                        )],
                        63,
                        7
                    )
                }
            ],
            fallback: Some(at(
                vec![
                    // the fallback's content
                    at(
                        Node::Raw {
                            content: "baz".to_string()
                        },
                        0,
                        3
                    )
                ],
                76,
                4
            ))
        }
    );
}

fn one_file(path: &str, text: &str) -> InMemoryFilesystem {
    let mut fs = InMemoryFilesystem::new();
    fs.add(path.to_string(), text.to_string());
    fs
}

#[test]
fn preprocess_macro_free_verbatim_test() {
    // a source with no directives comes out verbatim, modulo the final
    // line ending
    let fs = one_file("main.s", "add %a, %b\nld %a, [100]");
    assert_eq!(
        preprocess(&fs, "main.s").unwrap(),
        "add %a, %b\nld %a, [100]\n"
    );
}

#[test]
fn preprocess_substitution_test() {
    let fs = one_file("main.s", "#define foo 42\nword: .word foo");
    assert_eq!(preprocess(&fs, "main.s").unwrap(), "word: .word 42\n");
}

#[test]
fn preprocess_undefine_test() {
    let fs = one_file("main.s", "#define x 1\nx\n#undefine x\nx");
    assert_eq!(preprocess(&fs, "main.s").unwrap(), "1\nx\n");
}

#[test]
fn preprocess_condition_test() {
    let fs = one_file("main.s", "#define mode 2\n#if mode - 2\nA\n#else\nB\n#endif");
    assert_eq!(preprocess(&fs, "main.s").unwrap(), "B\n");

    let fs = one_file("main.s", "#define mode 2\n#if mode\nA\n#else\nB\n#endif");
    assert_eq!(preprocess(&fs, "main.s").unwrap(), "A\n");
}

#[test]
fn preprocess_undefined_conditional_test() {
    let fs = one_file("main.s", "#if nope\nA\n#endif");
    assert_eq!(
        preprocess(&fs, "main.s").err(),
        Some(PreprocessorError::UndefinedConditionalName {
            name: "nope".to_string()
        })
    );
}

#[test]
fn preprocess_user_error_test() {
    let fs = one_file("main.s", "#error \"boom\"");
    assert_eq!(
        preprocess(&fs, "main.s").err(),
        Some(PreprocessorError::UserError {
            msg: "boom".to_string(),
            span: Span {
                offset: 7,
                length: 6
            },
        })
    );
}

#[test]
fn preprocess_file_not_found_test() {
    let fs = InMemoryFilesystem::new();
    assert_eq!(
        preprocess(&fs, "missing.s").err(),
        Some(PreprocessorError::FileNotFound {
            path: "missing.s".to_string()
        })
    );
}

#[test]
fn preprocess_inclusion_test() {
    let mut fs = InMemoryFilesystem::new();
    fs.add(
        "main.s".to_string(),
        format!("#incl{}\nval", "ude \"inc/one.s\""),
    );
    fs.add("inc/one.s".to_string(), "#define val 9".to_string());
    assert_eq!(preprocess(&fs, "main.s").unwrap(), "9\n");
}

#[test]
fn preprocess_relative_inclusion_test() {
    // a path is resolved against the directory of the file naming it
    let mut fs = InMemoryFilesystem::new();
    fs.add(
        "lib/a.s".to_string(),
        format!("#incl{}\nmarker", "ude \"b.s\""),
    );
    fs.add("lib/b.s".to_string(), "#define marker 5".to_string());
    assert_eq!(preprocess(&fs, "lib/a.s").unwrap(), "5\n");
}

#[test]
fn preprocess_self_cycle_test() {
    let mut fs = InMemoryFilesystem::new();
    fs.add("a.s".to_string(), format!("#incl{}", "ude \"a.s\""));
    assert_eq!(
        preprocess(&fs, "a.s").err(),
        Some(PreprocessorError::IncludeCycle {
            path: "a.s".to_string()
        })
    );
}

#[test]
fn preprocess_two_file_cycle_test() {
    let mut fs = InMemoryFilesystem::new();
    fs.add("a.s".to_string(), format!("#incl{}", "ude \"b.s\""));
    fs.add("b.s".to_string(), format!("#incl{}", "ude \"a.s\""));
    assert_eq!(
        preprocess(&fs, "a.s").err(),
        Some(PreprocessorError::IncludeCycle {
            path: "a.s".to_string()
        })
    );
}

#[test]
fn preprocess_crlf_normalized_test() {
    // carriage-return-newline pairs come back as plain line breaks
    let fs = one_file("main.s", "add %a, %b\r\nld %a, [100]\r\n");
    assert_eq!(
        preprocess(&fs, "main.s").unwrap(),
        "add %a, %b\nld %a, [100]\n\n"
    );
}

#[test]
fn preprocess_keeps_unknown_words_test() {
    // substitution touches only defined names, whole words at a time
    let fs = one_file("main.s", "#define ab 1\nab abc ab");
    assert_eq!(preprocess(&fs, "main.s").unwrap(), "1 abc 1\n");
}
