use z33_asm::expression::parse_expression;
use z33_asm::expression::EmptyContext;
use z33_asm::expression::EvaluationError;
use z33_asm::expression::WidthHint;
use z33_asm::location::Located;
use z33_asm::location::Span;

fn evaluate(input: &str) -> i128 {
    let (node, used) = parse_expression(input).unwrap();
    assert_eq!(used, input.chars().count());
    node.evaluate(&EmptyContext, WidthHint::Full).unwrap()
}

fn evaluate_err(input: &str) -> EvaluationError {
    let (node, used) = parse_expression(input).unwrap();
    assert_eq!(used, input.chars().count());
    node.evaluate(&EmptyContext, WidthHint::Full).unwrap_err()
}

#[test]
fn calculation_test() {
    assert_eq!(evaluate("1 + 2"), 3);
    assert_eq!(evaluate("-3"), -3);
    assert_eq!(evaluate("5+2 * 3"), 11);
    assert_eq!(evaluate("(5 + 2) * 3"), 21);
    assert_eq!(evaluate("0xFF * 2"), 0x1FE);
    assert_eq!(evaluate("0x0F <<4"), 0xF0);
    assert_eq!(evaluate("0xF0>> 4"), 0x0F);
    assert_eq!(evaluate("0xAF & 0xF0"), 0xA0);
    assert_eq!(evaluate("0x0F | 0xF0"), 0xFF);
}

#[test]
fn left_associativity_test() {
    assert_eq!(evaluate("10 - 3 - 2"), 5);
    assert_eq!(evaluate("100 / 5 / 2"), 10);
    assert_eq!(evaluate("7 - 2 + 1"), 6);
}

#[test]
fn radix_literals_test() {
    assert_eq!(evaluate("0o17"), 15);
    assert_eq!(evaluate("0b1010"), 10);
    assert_eq!(evaluate("0xaB"), 171);
    assert_eq!(evaluate("42"), 42);
}

#[test]
fn divide_by_zero_test() {
    assert_eq!(evaluate_err("1 / 0"), EvaluationError::DivideByZero);
    assert_eq!(evaluate("7 / 2"), 3);
}

#[test]
fn shift_out_of_range_test() {
    assert_eq!(evaluate_err("1 << 64"), EvaluationError::ShiftOutOfRange);
    assert_eq!(evaluate_err("1 >> 64"), EvaluationError::ShiftOutOfRange);
    assert_eq!(evaluate("1 << 63"), 1i128 << 63);
}

#[test]
fn overflow_test() {
    assert_eq!(
        evaluate_err("170141183460469231731687303715884105727 + 1"),
        EvaluationError::Overflow
    );
    assert_eq!(
        evaluate("170141183460469231731687303715884105727"),
        i128::MAX
    );
}

#[test]
fn undefined_variable_test() {
    let (node, _) = parse_expression("foo + 1").unwrap();
    assert_eq!(
        node.evaluate(&EmptyContext, WidthHint::Full),
        Err(EvaluationError::UndefinedVariable {
            variable: "foo".into()
        })
    );
}

#[test]
fn binary_not_full_width_test() {
    let (node, _) = parse_expression("~0").unwrap();
    assert_eq!(node.evaluate(&EmptyContext, WidthHint::Full), Ok(-1));
}

#[test]
fn binary_not_cell_width_test() {
    let (node, _) = parse_expression("~0").unwrap();
    assert_eq!(
        node.evaluate(&EmptyContext, WidthHint::Bits(16)),
        Ok(0xFFFF)
    );
    let (node, _) = parse_expression("~5").unwrap();
    assert_eq!(
        node.evaluate(&EmptyContext, WidthHint::Bits(16)),
        Ok(0xFFFA)
    );
    // an operand outside the cell cannot be complemented against it
    let (node, _) = parse_expression("~0x10000").unwrap();
    assert_eq!(
        node.evaluate(&EmptyContext, WidthHint::Bits(16)),
        Err(EvaluationError::Overflow)
    );
}

#[test]
fn literal_only_round_trip_test() {
    // the value of a literal-only expression is its mathematical value
    // under signed integer semantics, whatever context it is evaluated in:
    // a label table resolves nothing that the expression mentions
    let (node, _) = parse_expression("(1 + 2) * 4 - 6 / 2").unwrap();
    let mut labels = z33_asm::layout::Labels::new();
    labels.insert("unrelated".to_string(), 7);
    assert_eq!(node.evaluate(&labels, WidthHint::Full), Ok(9));
    assert_eq!(evaluate("(1 + 2) * 4 - 6 / 2"), 9);
}

#[test]
fn render_round_trip_test() {
    // rendering a parsed expression and parsing it again evaluates alike
    for text in ["1 + 2 * 3", "(1 + 2) * 3", "1 - 2 - 3", "-(1 + 2)", "6 | 1 & 3 << 1"] {
        let (node, _) = parse_expression(text).unwrap();
        let shown = z33_asm::render::render_node(&node);
        let reparsed = evaluate(&shown);
        assert_eq!(reparsed, evaluate(text), "text {} shown {}", text, shown);
    }
}

#[test]
fn variable_resolution_test() {
    let (node, _) = parse_expression("base + 2").unwrap();
    let mut labels = z33_asm::layout::Labels::new();
    labels.insert("base".to_string(), 100);
    assert_eq!(node.evaluate(&labels, WidthHint::Full), Ok(102));
}

#[test]
fn into_absolute_test() {
    let child = |n: z33_asm::expression::Node, offset: usize, length: usize| Located {
        inner: Box::new(n),
        location: Span { offset, length },
    };
    let n = z33_asm::expression::Node::Sum(
        child(z33_asm::expression::Node::Literal(1), 0, 1),
        child(z33_asm::expression::Node::Literal(2), 4, 1),
    );
    let abs = n.into_absolute(&Span { offset: 10, length: 5 });
    match abs {
        z33_asm::expression::Node::Sum(a, b) => {
            assert_eq!(a.location, Span { offset: 10, length: 1 });
            assert_eq!(b.location, Span { offset: 14, length: 1 });
        }
        _ => panic!("shape changed"),
    }

    let n = z33_asm::expression::Node::Sum(
        child(z33_asm::expression::Node::Literal(1), 0, 1),
        child(z33_asm::expression::Node::Literal(2), 4, 1),
    );
    let moved = n.offset(3);
    match moved {
        z33_asm::expression::Node::Sum(a, b) => {
            assert_eq!(a.location, Span { offset: 3, length: 1 });
            assert_eq!(b.location, Span { offset: 7, length: 1 });
        }
        _ => panic!("shape changed"),
    }
}
