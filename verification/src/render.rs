//! Rendering of expressions, line contents and placements as text, for
//! the memory report and for diagnostics.
//!
//! Each executable renderer produces exactly the character sequence its
//! spec-level twin describes.

use vstd::prelude::*;

use crate::expression::Node;
use crate::expression::NodeView;
use crate::layout::Placement;
use crate::line::DirectiveArgument;
use crate::line::DirectiveKind;
use crate::line::InstructionArgument;
use crate::line::InstructionKind;
use crate::line::LineContent;
use crate::line::Reg;
use crate::line::args_view;
use crate::strings::chars_to_string;
use crate::strings::str_to_chars;

verus! {

/// The digit character of `d`, for `0 <= d <= 9`.
pub open spec fn digit_char(d: int) -> char {
    ((48 + d) as u8) as char
}

/// The decimal spelling of a non-negative number.
pub open spec fn dec_str(n: int) -> Seq<char>
    decreases n,
{
    if n < 10 {
        seq![digit_char(n)]
    } else {
        dec_str(n / 10).push(digit_char(n % 10))
    }
}

/// The decimal spelling of a value, with a sign when negative.
pub open spec fn spec_render_value(v: int) -> Seq<char> {
    if v >= 0 {
        dec_str(v)
    } else {
        seq!['-'] + dec_str(-v)
    }
}

/// Append the decimal spelling of `n`.
fn append_dec(out: &mut Vec<char>, n: u128)
    ensures
        final(out)@ == old(out)@ + dec_str(n as int),
    decreases n,
{
    if n < 10 {
        let d: u8 = 48 + (n as u8);
        out.push(d as char);
        proof {
            assert(out@ =~= old(out)@ + dec_str(n as int));
        }
    } else {
        append_dec(out, n / 10);
        let d: u8 = 48 + ((n % 10) as u8);
        out.push(d as char);
        proof {
            assert(out@ =~= old(out)@ + dec_str(n as int));
        }
    }
}

/// The hexadecimal digit character of `d`, for `0 <= d <= 15`.
pub open spec fn hex_digit_char(d: int) -> char {
    if d < 10 {
        digit_char(d)
    } else {
        ((87 + d) as u8) as char
    }
}

/// The hexadecimal spelling of a non-negative number.
pub open spec fn hex_str(n: int) -> Seq<char>
    decreases n,
{
    if n < 16 {
        seq![hex_digit_char(n)]
    } else {
        hex_str(n / 16).push(hex_digit_char(n % 16))
    }
}

/// Append the hexadecimal spelling of `n`.
fn append_hex(out: &mut Vec<char>, n: u32)
    ensures
        final(out)@ == old(out)@ + hex_str(n as int),
    decreases n,
{
    if n < 16 {
        let d: u8 = if n < 10 {
            48 + (n as u8)
        } else {
            87 + (n as u8)
        };
        out.push(d as char);
        proof {
            assert(out@ =~= old(out)@ + hex_str(n as int));
        }
    } else {
        append_hex(out, n / 16);
        let m = n % 16;
        let d: u8 = if m < 10 {
            48 + (m as u8)
        } else {
            87 + (m as u8)
        };
        out.push(d as char);
        proof {
            assert(out@ =~= old(out)@ + hex_str(n as int));
        }
    }
}

/// Append every character of `s`.
pub(crate) fn append_str(out: &mut Vec<char>, s: &str)
    ensures
        final(out)@ == old(out)@ + s@,
{
    let cs = str_to_chars(s);
    let mut i: usize = 0;
    while i < cs.len()
        invariant
            i <= cs@.len(),
            cs@ == s@,
            out@ == old(out)@ + s@.subrange(0, i as int),
        decreases cs@.len() - i,
    {
        out.push(cs[i]);
        proof {
            assert(out@ =~= old(out)@ + s@.subrange(0, i as int + 1));
        }
        i = i + 1;
    }
    proof {
        assert(old(out)@ + s@.subrange(0, s@.len() as int) =~= old(out)@ + s@);
    }
}

/// Append the signed decimal spelling of `v`.
fn append_value(out: &mut Vec<char>, v: i128)
    ensures
        final(out)@ == old(out)@ + spec_render_value(v as int),
{
    if v >= 0 {
        append_dec(out, v as u128);
    } else {
        out.push('-');
        let m: u128 = if v == i128::MIN {
            170141183460469231731687303715884105728u128
        } else {
            (-v) as u128
        };
        append_dec(out, m);
        proof {
            assert(out@ =~= old(out)@ + spec_render_value(v as int));
        }
    }
}

/// The precedence rank of an expression node: higher binds tighter.
pub open spec fn prec(n: NodeView) -> int {
    match n {
        NodeView::BinaryOr(_, _) => 1,
        NodeView::BinaryAnd(_, _) => 2,
        NodeView::LeftShift(_, _) => 3,
        NodeView::RightShift(_, _) => 3,
        NodeView::Sum(_, _) => 4,
        NodeView::Substract(_, _) => 4,
        NodeView::Multiply(_, _) => 5,
        NodeView::Divide(_, _) => 5,
        NodeView::Invert(_) => 6,
        NodeView::BinaryNot(_) => 6,
        NodeView::Literal(_) => 7,
        NodeView::Variable(_) => 7,
    }
}

/// The operator spelled between the children of a binary node.
pub open spec fn op_str(n: NodeView) -> Seq<char> {
    match n {
        NodeView::BinaryOr(_, _) => " | "@,
        NodeView::BinaryAnd(_, _) => " & "@,
        NodeView::LeftShift(_, _) => " << "@,
        NodeView::RightShift(_, _) => " >> "@,
        NodeView::Sum(_, _) => " + "@,
        NodeView::Substract(_, _) => " - "@,
        NodeView::Multiply(_, _) => " * "@,
        NodeView::Divide(_, _) => " / "@,
        _ => Seq::empty(),
    }
}

/// A rendering of a child, parenthesised when it binds looser than the
/// parent demands.
pub open spec fn spec_render_child(n: NodeView, min: int) -> Seq<char>
    decreases n, 1int,
{
    if prec(n) < min {
        seq!['('] + spec_render_node(n) + seq![')']
    } else {
        spec_render_node(n)
    }
}

/// The text of an expression tree: binary chains spelled left to right
/// with spaced operators, parentheses exactly where a child binds
/// looser than its position requires.
pub open spec fn spec_render_node(n: NodeView) -> Seq<char>
    decreases n, 0int,
{
    match n {
        NodeView::BinaryOr(a, b) => spec_render_child(*a, 1) + op_str(n) + spec_render_child(
            *b,
            2,
        ),
        NodeView::BinaryAnd(a, b) => spec_render_child(*a, 2) + op_str(n) + spec_render_child(
            *b,
            3,
        ),
        NodeView::LeftShift(a, b) => spec_render_child(*a, 4) + op_str(n) + spec_render_child(
            *b,
            4,
        ),
        NodeView::RightShift(a, b) => spec_render_child(*a, 4) + op_str(n) + spec_render_child(
            *b,
            4,
        ),
        NodeView::Sum(a, b) => spec_render_child(*a, 4) + op_str(n) + spec_render_child(*b, 5),
        NodeView::Substract(a, b) => spec_render_child(*a, 4) + op_str(n) + spec_render_child(
            *b,
            5,
        ),
        NodeView::Multiply(a, b) => spec_render_child(*a, 5) + op_str(n) + spec_render_child(
            *b,
            6,
        ),
        NodeView::Divide(a, b) => spec_render_child(*a, 5) + op_str(n) + spec_render_child(*b, 6),
        NodeView::Invert(a) => seq!['-'] + spec_render_child(*a, 7),
        NodeView::BinaryNot(a) => seq!['~'] + spec_render_child(*a, 7),
        NodeView::Literal(v) => spec_render_value(v as int),
        NodeView::Variable(name) => name,
    }
}

fn render_child(out: &mut Vec<char>, n: &Node, min: i32)
    ensures
        final(out)@ == old(out)@ + spec_render_child(n@, min as int),
    decreases *n, 1int,
{
    let p = match n {
        Node::BinaryOr(_, _) => 1,
        Node::BinaryAnd(_, _) => 2,
        Node::LeftShift(_, _) => 3,
        Node::RightShift(_, _) => 3,
        Node::Sum(_, _) => 4,
        Node::Substract(_, _) => 4,
        Node::Multiply(_, _) => 5,
        Node::Divide(_, _) => 5,
        Node::Invert(_) => 6,
        Node::BinaryNot(_) => 6,
        Node::Literal(_) => 7,
        Node::Variable(_) => 7,
    };
    if p < min {
        out.push('(');
        render_node_onto(out, n);
        out.push(')');
        proof {
            assert(out@ =~= old(out)@ + spec_render_child(n@, min as int));
        }
    } else {
        render_node_onto(out, n);
    }
}

fn render_node_onto(out: &mut Vec<char>, n: &Node)
    ensures
        final(out)@ == old(out)@ + spec_render_node(n@),
    decreases *n, 0int,
{
    match n {
        Node::BinaryOr(a, b) => {
            render_child(out, &a.inner, 1);
            append_str(out, " | ");
            render_child(out, &b.inner, 2);
            proof {
                assert(out@ =~= old(out)@ + spec_render_node(n@));
            }
        },
        Node::BinaryAnd(a, b) => {
            render_child(out, &a.inner, 2);
            append_str(out, " & ");
            render_child(out, &b.inner, 3);
            proof {
                assert(out@ =~= old(out)@ + spec_render_node(n@));
            }
        },
        Node::LeftShift(a, b) => {
            render_child(out, &a.inner, 4);
            append_str(out, " << ");
            render_child(out, &b.inner, 4);
            proof {
                assert(out@ =~= old(out)@ + spec_render_node(n@));
            }
        },
        Node::RightShift(a, b) => {
            render_child(out, &a.inner, 4);
            append_str(out, " >> ");
            render_child(out, &b.inner, 4);
            proof {
                assert(out@ =~= old(out)@ + spec_render_node(n@));
            }
        },
        Node::Sum(a, b) => {
            render_child(out, &a.inner, 4);
            append_str(out, " + ");
            render_child(out, &b.inner, 5);
            proof {
                assert(out@ =~= old(out)@ + spec_render_node(n@));
            }
        },
        Node::Substract(a, b) => {
            render_child(out, &a.inner, 4);
            append_str(out, " - ");
            render_child(out, &b.inner, 5);
            proof {
                assert(out@ =~= old(out)@ + spec_render_node(n@));
            }
        },
        Node::Multiply(a, b) => {
            render_child(out, &a.inner, 5);
            append_str(out, " * ");
            render_child(out, &b.inner, 6);
            proof {
                assert(out@ =~= old(out)@ + spec_render_node(n@));
            }
        },
        Node::Divide(a, b) => {
            render_child(out, &a.inner, 5);
            append_str(out, " / ");
            render_child(out, &b.inner, 6);
            proof {
                assert(out@ =~= old(out)@ + spec_render_node(n@));
            }
        },
        Node::Invert(a) => {
            out.push('-');
            render_child(out, &a.inner, 7);
            proof {
                assert(out@ =~= old(out)@ + spec_render_node(n@));
            }
        },
        Node::BinaryNot(a) => {
            out.push('~');
            render_child(out, &a.inner, 7);
            proof {
                assert(out@ =~= old(out)@ + spec_render_node(n@));
            }
        },
        Node::Literal(v) => {
            append_value(out, *v);
            proof {
                assert(out@ =~= old(out)@ + spec_render_node(n@));
            }
        },
        Node::Variable(name) => {
            append_str(out, name.as_str());
            proof {
                assert(out@ =~= old(out)@ + spec_render_node(n@));
            }
        },
    }
}

/// The text of an expression.
pub fn render_node(n: &Node) -> (r: String)
    ensures
        r@ == spec_render_node(n@),
{
    let mut out: Vec<char> = Vec::new();
    render_node_onto(&mut out, n);
    proof {
        assert(Seq::<char>::empty() + spec_render_node(n@) =~= spec_render_node(n@));
    }
    chars_to_string(&out)
}

/// The name of a register, with its `%` sigil.
pub open spec fn spec_render_reg(r: Reg) -> Seq<char> {
    match r {
        Reg::A => "%a"@,
        Reg::B => "%b"@,
        Reg::Pc => "%pc"@,
        Reg::Sp => "%sp"@,
        Reg::Sr => "%sr"@,
    }
}

fn append_reg(out: &mut Vec<char>, r: Reg)
    ensures
        final(out)@ == old(out)@ + spec_render_reg(r),
{
    match r {
        Reg::A => append_str(out, "%a"),
        Reg::B => append_str(out, "%b"),
        Reg::Pc => append_str(out, "%pc"),
        Reg::Sp => append_str(out, "%sp"),
        Reg::Sr => append_str(out, "%sr"),
    }
}

/// The text of one instruction argument.
pub open spec fn spec_render_argument(a: crate::line::InstructionArgumentView) -> Seq<char> {
    match a {
        crate::line::InstructionArgumentView::Value(n) => spec_render_node(n),
        crate::line::InstructionArgumentView::Register(r) => spec_render_reg(r),
        crate::line::InstructionArgumentView::Direct(n) => seq!['['] + spec_render_node(n)
            + seq![']'],
        crate::line::InstructionArgumentView::Indirect(r) => seq!['['] + spec_render_reg(r)
            + seq![']'],
        crate::line::InstructionArgumentView::Indexed(r, n) => seq!['['] + spec_render_reg(r)
            + seq!['+'] + spec_render_node(n) + seq![']'],
    }
}

fn append_argument(out: &mut Vec<char>, a: &InstructionArgument)
    ensures
        final(out)@ == old(out)@ + spec_render_argument(a@),
{
    match a {
        InstructionArgument::Value(n) => {
            render_node_onto(out, n);
            proof {
                assert(out@ =~= old(out)@ + spec_render_argument(a@));
            }
        },
        InstructionArgument::Register(r) => {
            append_reg(out, *r);
            proof {
                assert(out@ =~= old(out)@ + spec_render_argument(a@));
            }
        },
        InstructionArgument::Direct(n) => {
            out.push('[');
            render_node_onto(out, n);
            out.push(']');
            proof {
                assert(out@ =~= old(out)@ + spec_render_argument(a@));
            }
        },
        InstructionArgument::Indirect(r) => {
            out.push('[');
            append_reg(out, *r);
            out.push(']');
            proof {
                assert(out@ =~= old(out)@ + spec_render_argument(a@));
            }
        },
        InstructionArgument::Indexed(r, n) => {
            out.push('[');
            append_reg(out, *r);
            out.push('+');
            render_node_onto(out, n);
            out.push(']');
            proof {
                assert(out@ =~= old(out)@ + spec_render_argument(a@));
            }
        },
    }
}

/// The lower-case name of a mnemonic, padded with spaces to four
/// characters.
pub open spec fn spec_render_mnemonic(k: InstructionKind) -> Seq<char> {
    match k {
        InstructionKind::Add => "add "@,
        InstructionKind::And => "and "@,
        InstructionKind::Call => "call"@,
        InstructionKind::Cmp => "cmp "@,
        InstructionKind::Div => "div "@,
        InstructionKind::Fas => "fas "@,
        InstructionKind::In => "in  "@,
        InstructionKind::Jmp => "jmp "@,
        InstructionKind::Jeq => "jeq "@,
        InstructionKind::Jne => "jne "@,
        InstructionKind::Jle => "jle "@,
        InstructionKind::Jlt => "jlt "@,
        InstructionKind::Jge => "jge "@,
        InstructionKind::Jgt => "jgt "@,
        InstructionKind::Ld => "ld  "@,
        InstructionKind::Mul => "mul "@,
        InstructionKind::Neg => "neg "@,
        InstructionKind::Nop => "nop "@,
        InstructionKind::Not => "not "@,
        InstructionKind::Or => "or  "@,
        InstructionKind::Out => "out "@,
        InstructionKind::Pop => "pop "@,
        InstructionKind::Push => "push"@,
        InstructionKind::Reset => "reset"@,
        InstructionKind::Rti => "rti "@,
        InstructionKind::Rtn => "rtn "@,
        InstructionKind::Shl => "shl "@,
        InstructionKind::Shr => "shr "@,
        InstructionKind::St => "st  "@,
        InstructionKind::Sub => "sub "@,
        InstructionKind::Swap => "swap"@,
        InstructionKind::Trap => "trap"@,
        InstructionKind::Xor => "xor "@,
    }
}

fn append_mnemonic(out: &mut Vec<char>, k: InstructionKind)
    ensures
        final(out)@ == old(out)@ + spec_render_mnemonic(k),
{
    match k {
        InstructionKind::Add => append_str(out, "add "),
        InstructionKind::And => append_str(out, "and "),
        InstructionKind::Call => append_str(out, "call"),
        InstructionKind::Cmp => append_str(out, "cmp "),
        InstructionKind::Div => append_str(out, "div "),
        InstructionKind::Fas => append_str(out, "fas "),
        InstructionKind::In => append_str(out, "in  "),
        InstructionKind::Jmp => append_str(out, "jmp "),
        InstructionKind::Jeq => append_str(out, "jeq "),
        InstructionKind::Jne => append_str(out, "jne "),
        InstructionKind::Jle => append_str(out, "jle "),
        InstructionKind::Jlt => append_str(out, "jlt "),
        InstructionKind::Jge => append_str(out, "jge "),
        InstructionKind::Jgt => append_str(out, "jgt "),
        InstructionKind::Ld => append_str(out, "ld  "),
        InstructionKind::Mul => append_str(out, "mul "),
        InstructionKind::Neg => append_str(out, "neg "),
        InstructionKind::Nop => append_str(out, "nop "),
        InstructionKind::Not => append_str(out, "not "),
        InstructionKind::Or => append_str(out, "or  "),
        InstructionKind::Out => append_str(out, "out "),
        InstructionKind::Pop => append_str(out, "pop "),
        InstructionKind::Push => append_str(out, "push"),
        InstructionKind::Reset => append_str(out, "reset"),
        InstructionKind::Rti => append_str(out, "rti "),
        InstructionKind::Rtn => append_str(out, "rtn "),
        InstructionKind::Shl => append_str(out, "shl "),
        InstructionKind::Shr => append_str(out, "shr "),
        InstructionKind::St => append_str(out, "st  "),
        InstructionKind::Sub => append_str(out, "sub "),
        InstructionKind::Swap => append_str(out, "swap"),
        InstructionKind::Trap => append_str(out, "trap"),
        InstructionKind::Xor => append_str(out, "xor "),
    }
}

/// The lower-case name of a directive kind.
pub open spec fn spec_render_directive_kind(k: DirectiveKind) -> Seq<char> {
    match k {
        DirectiveKind::Word => "word"@,
        DirectiveKind::Space => "space"@,
        DirectiveKind::Addr => "addr"@,
        DirectiveKind::String => "string"@,
    }
}

fn append_directive_kind(out: &mut Vec<char>, k: DirectiveKind)
    ensures
        final(out)@ == old(out)@ + spec_render_directive_kind(k),
{
    match k {
        DirectiveKind::Word => append_str(out, "word"),
        DirectiveKind::Space => append_str(out, "space"),
        DirectiveKind::Addr => append_str(out, "addr"),
        DirectiveKind::String => append_str(out, "string"),
    }
}

/// A string literal quoted back, with `\\` and `"` escaped.
pub open spec fn spec_quote_string(s: Seq<char>) -> Seq<char>
    decreases s.len(),
{
    if s.len() == 0 {
        Seq::empty()
    } else {
        let c = s.last();
        spec_quote_string(s.drop_last()) + (if c == '\\' {
            seq!['\\', '\\']
        } else if c == '"' {
            seq!['\\', '"']
        } else {
            seq![c]
        })
    }
}

fn append_quoted(out: &mut Vec<char>, s: &String)
    ensures
        final(out)@ == old(out)@ + seq!['"'] + spec_quote_string(s@) + seq!['"'],
{
    out.push('"');
    let cs = str_to_chars(s.as_str());
    let mut i: usize = 0;
    while i < cs.len()
        invariant
            i <= cs@.len(),
            cs@ == s@,
            out@ == old(out)@ + seq!['"'] + spec_quote_string(s@.subrange(0, i as int)),
        decreases cs@.len() - i,
    {
        let c = cs[i];
        if c == '\\' {
            out.push('\\');
            out.push('\\');
        } else if c == '"' {
            out.push('\\');
            out.push('"');
        } else {
            out.push(c);
        }
        proof {
            assert(s@.subrange(0, i as int + 1).drop_last() =~= s@.subrange(0, i as int));
            assert(s@.subrange(0, i as int + 1).last() == s@[i as int]);
            assert(out@ =~= old(out)@ + seq!['"'] + spec_quote_string(
                s@.subrange(0, i as int + 1),
            ));
        }
        i = i + 1;
    }
    out.push('"');
    proof {
        assert(s@.subrange(0, s@.len() as int) =~= s@);
        assert(out@ =~= old(out)@ + seq!['"'] + spec_quote_string(s@) + seq!['"']);
    }
}

/// The text of a directive argument.
pub open spec fn spec_render_directive_argument(a: crate::line::DirectiveArgumentView) -> Seq<
    char,
> {
    match a {
        crate::line::DirectiveArgumentView::Expression(n) => spec_render_node(n),
        crate::line::DirectiveArgumentView::StringLiteral(s) => seq!['"'] + spec_quote_string(s)
            + seq!['"'],
    }
}

/// The arguments of an instruction, comma-separated, each after a space.
pub open spec fn spec_render_arguments(
    args: Seq<crate::line::InstructionArgumentView>,
    i: nat,
) -> Seq<char>
    decreases args.len() - i,
{
    if i >= args.len() {
        Seq::empty()
    } else {
        let sep: Seq<char> = if i == 0 {
            " "@
        } else {
            ", "@
        };
        sep + spec_render_argument(args[i as int]) + spec_render_arguments(args, i + 1)
    }
}

/// The text of a line content: a padded mnemonic and its arguments, or a
/// dotted directive and its argument.
pub open spec fn spec_render_line_content(c: crate::line::LineContentView) -> Seq<char> {
    match c {
        crate::line::LineContentView::Instruction { kind, arguments } => spec_render_mnemonic(kind)
            + spec_render_arguments(arguments, 0),
        crate::line::LineContentView::Directive { kind, argument } => seq!['.']
            + spec_render_directive_kind(kind) + ": "@ + spec_render_directive_argument(
            argument,
        ),
    }
}

fn append_line_content(out: &mut Vec<char>, c: &LineContent)
    ensures
        final(out)@ == old(out)@ + spec_render_line_content(c@),
{
    match c {
        LineContent::Instruction { kind, arguments } => {
            append_mnemonic(out, *kind);
            let ghost argsv = args_view(arguments@);
            proof {
                crate::line::lemma_args_view_index(arguments@);
            }
            let mut i: usize = 0;
            while i < arguments.len()
                invariant
                    i <= arguments@.len(),
                    argsv == args_view(arguments@),
                    argsv.len() == arguments@.len(),
                    forall|j: int|
                        0 <= j < arguments@.len() ==> argsv[j] == #[trigger] arguments@[j]@,
                    out@ + spec_render_arguments(argsv, i as nat) == old(out)@
                        + spec_render_mnemonic(*kind) + spec_render_arguments(argsv, 0),
                decreases arguments@.len() - i,
            {
                let ghost before = out@;
                if i == 0 {
                    append_str(out, " ");
                } else {
                    append_str(out, ", ");
                }
                append_argument(out, &arguments[i]);
                proof {
                    assert(out@ + spec_render_arguments(argsv, i as nat + 1) =~= before
                        + spec_render_arguments(argsv, i as nat));
                }
                i = i + 1;
            }
            proof {
                assert(spec_render_arguments(argsv, arguments@.len() as nat) =~= Seq::<
                    char,
                >::empty());
                assert(out@ =~= out@ + spec_render_arguments(argsv, arguments@.len() as nat));
                assert(out@ =~= old(out)@ + spec_render_line_content(c@));
            }
        },
        LineContent::Directive { kind, argument } => {
            out.push('.');
            append_directive_kind(out, *kind);
            append_str(out, ": ");
            match argument {
                DirectiveArgument::Expression(n) => {
                    render_node_onto(out, n);
                },
                DirectiveArgument::StringLiteral(s) => {
                    append_quoted(out, s);
                },
            }
            proof {
                assert(out@ =~= old(out)@ + spec_render_line_content(c@));
            }
        },
    }
}

/// The text of one memory cell: a reserved marker, a quoted character,
/// or the instruction or directive occupying it.
pub open spec fn spec_render_placement(p: Placement) -> Seq<char> {
    match p {
        Placement::Reserved => "SPACE"@,
        Placement::Char(c) => seq!['\''] + (if c == '\\' {
            seq!['\\', '\\']
        } else if c == '\'' {
            seq!['\\', '\'']
        } else if c == '\n' {
            seq!['\\', 'n']
        } else if c == '\r' {
            seq!['\\', 'r']
        } else if c == '\t' {
            seq!['\\', 't']
        } else if (c as u32) < 32 || c as u32 == 127 {
            "\\u{"@ + hex_str(c as int) + seq!['}']
        } else {
            seq![c]
        }) + seq!['\''],
        Placement::Line(c) => spec_render_line_content(c@),
    }
}

/// Render one memory cell.
pub fn render_placement(p: &Placement) -> (r: String)
    ensures
        r@ == spec_render_placement(*p),
{
    let mut out: Vec<char> = Vec::new();
    match p {
        Placement::Reserved => {
            append_str(&mut out, "SPACE");
        },
        Placement::Char(c) => {
            out.push('\'');
            let c = *c;
            if c == '\\' {
                out.push('\\');
                out.push('\\');
            } else if c == '\'' {
                out.push('\\');
                out.push('\'');
            } else if c == '\n' {
                out.push('\\');
                out.push('n');
            } else if c == '\r' {
                out.push('\\');
                out.push('r');
            } else if c == '\t' {
                out.push('\\');
                out.push('t');
            } else if (c as u32) < 32 || c as u32 == 127 {
                append_str(&mut out, "\\u{");
                append_hex(&mut out, c as u32);
                out.push('}');
            } else {
                out.push(c);
            }
            out.push('\'');
        },
        Placement::Line(c) => {
            append_line_content(&mut out, c);
        },
    }
    proof {
        assert(out@ =~= spec_render_placement(*p));
    }
    chars_to_string(&out)
}

} // verus!
