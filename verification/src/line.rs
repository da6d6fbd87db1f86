//! Program lines: symbols, instructions, directives and comments.
//!
//! A line holds zero or more label definitions, an optional content (an
//! instruction or a directive) and an optional comment. Programs are plain
//! sequences of lines.

use vstd::prelude::*;

use crate::expression::Node;
use crate::expression::NodeView;
use crate::expression::node_view;
use crate::location::Located;
use crate::location::Span;

verus! {

/// A processor register, as named in instruction arguments (`%a`, ...).
#[derive(Clone, Copy, Debug, PartialEq, Eq, Structural)]
pub enum Reg {
    A,
    B,
    Pc,
    Sp,
    Sr,
}

/// The instruction mnemonics the grammar recognises.
#[derive(Clone, Copy, Debug, PartialEq, Eq, Structural)]
pub enum InstructionKind {
    Add,
    And,
    Call,
    Cmp,
    Div,
    Fas,
    In,
    Jmp,
    Jeq,
    Jne,
    Jle,
    Jlt,
    Jge,
    Jgt,
    Ld,
    Mul,
    Neg,
    Nop,
    Not,
    Or,
    Out,
    Pop,
    Push,
    Reset,
    Rti,
    Rtn,
    Shl,
    Shr,
    St,
    Sub,
    Swap,
    Trap,
    Xor,
}

/// The four assembler directives.
#[derive(Clone, Copy, Debug, PartialEq, Eq, Structural)]
pub enum DirectiveKind {
    Word,
    Space,
    Addr,
    String,
}

/// One argument of an instruction: an immediate expression, a register, a
/// direct memory reference, or an indirect/indexed reference through a
/// register.
#[derive(Debug, PartialEq)]
pub enum InstructionArgument {
    Value(Node),
    Register(Reg),
    Direct(Node),
    Indirect(Reg),
    Indexed(Reg, Node),
}

/// The argument of a directive: an expression or a string literal.
#[derive(Debug, PartialEq)]
pub enum DirectiveArgument {
    Expression(Node),
    StringLiteral(String),
}

/// The content of a line: an instruction with its arguments, or a
/// directive with its argument.
#[derive(Debug, PartialEq)]
pub enum LineContent {
    Instruction { kind: InstructionKind, arguments: Vec<InstructionArgument> },
    Directive { kind: DirectiveKind, argument: DirectiveArgument },
}

impl LineContent {
    /// Whether the content is a directive.
    pub fn is_directive(&self) -> (r: bool)
        ensures
            r == (self is Directive),
    {
        match self {
            LineContent::Directive { .. } => true,
            LineContent::Instruction { .. } => false,
        }
    }
}

/// A whole program line: its symbol definitions, its content and its
/// comment, each possibly absent. An empty line has none of the three.
#[derive(Debug, PartialEq)]
pub struct Line {
    pub symbols: Vec<String>,
    pub content: Option<LineContent>,
    pub comment: Option<String>,
}

impl Default for Line {
    /// The empty line.
    fn default() -> (r: Line)
        ensures
            r.symbols@ == Seq::<String>::empty(),
            r.content is None,
            r.comment is None,
    {
        Line { symbols: Vec::new(), content: None, comment: None }
    }
}

impl Line {
    /// Build a line from its three parts.
    pub fn new(symbols: Vec<String>, content: Option<LineContent>, comment: Option<String>) -> (r:
        Line)
        ensures
            r.symbols == symbols,
            r.content == content,
            r.comment == comment,
    {
        Line { symbols, content, comment }
    }

    /// The comment of the line, if any.
    pub fn comment_text(&self) -> (r: &Option<String>)
        ensures
            r == self.comment,
    {
        &self.comment
    }

    /// This line, with `comment` as its comment.
    pub fn comment(self, comment: &str) -> (r: Line)
        ensures
            r.symbols == self.symbols,
            r.content == self.content,
            r.comment matches Some(c) && c@ == comment@,
    {
        Line { comment: Some(crate::strings::str_to_string(comment)), ..self }
    }

    /// This line, with `symbol` appended to its symbol definitions.
    pub fn symbol(self, symbol: &str) -> (r: Line)
        ensures
            r.symbols@.len() == self.symbols@.len() + 1,
            r.symbols@.subrange(0, self.symbols@.len() as int) == self.symbols@,
            r.symbols@.last()@ == symbol@,
            r.content == self.content,
            r.comment == self.comment,
    {
        let mut symbols = self.symbols;
        let ghost prior = symbols@;
        symbols.push(crate::strings::str_to_string(symbol));
        proof {
            assert(symbols@.subrange(0, prior.len() as int) =~= prior);
        }
        Line { symbols, content: self.content, comment: self.comment }
    }

    /// This line, with a directive as its content.
    pub fn directive(self, kind: DirectiveKind, argument: DirectiveArgument) -> (r: Line)
        ensures
            r.symbols == self.symbols,
            r.content == Some(LineContent::Directive { kind, argument }),
            r.comment == self.comment,
    {
        Line { content: Some(LineContent::Directive { kind, argument }), ..self }
    }

    /// This line, with an instruction as its content.
    pub fn instruction(self, kind: InstructionKind, arguments: Vec<InstructionArgument>) -> (r:
        Line)
        ensures
            r.symbols == self.symbols,
            r.content == Some(LineContent::Instruction { kind, arguments }),
            r.comment == self.comment,
    {
        Line { content: Some(LineContent::Instruction { kind, arguments }), ..self }
    }
}


// ------------------------------------------------------------------
// Spec-level views of lines.
// ------------------------------------------------------------------

/// The spec-level image of an instruction argument.
pub enum InstructionArgumentView {
    Value(NodeView),
    Register(Reg),
    Direct(NodeView),
    Indirect(Reg),
    Indexed(Reg, NodeView),
}

impl View for InstructionArgument {
    type V = InstructionArgumentView;

    open spec fn view(&self) -> InstructionArgumentView {
        match self {
            InstructionArgument::Value(n) => InstructionArgumentView::Value(node_view(*n)),
            InstructionArgument::Register(r) => InstructionArgumentView::Register(*r),
            InstructionArgument::Direct(n) => InstructionArgumentView::Direct(node_view(*n)),
            InstructionArgument::Indirect(r) => InstructionArgumentView::Indirect(*r),
            InstructionArgument::Indexed(r, n) => InstructionArgumentView::Indexed(
                *r,
                node_view(*n),
            ),
        }
    }
}

/// The spec-level image of a directive argument.
pub enum DirectiveArgumentView {
    Expression(NodeView),
    StringLiteral(Seq<char>),
}

impl View for DirectiveArgument {
    type V = DirectiveArgumentView;

    open spec fn view(&self) -> DirectiveArgumentView {
        match self {
            DirectiveArgument::Expression(n) => DirectiveArgumentView::Expression(node_view(*n)),
            DirectiveArgument::StringLiteral(s) => DirectiveArgumentView::StringLiteral(s@),
        }
    }
}

/// The views of a sequence of instruction arguments, in order.
pub open spec fn args_view(s: Seq<InstructionArgument>) -> Seq<InstructionArgumentView>
    decreases s.len(),
{
    if s.len() == 0 {
        Seq::empty()
    } else {
        args_view(s.drop_last()).push(s.last()@)
    }
}

/// Each position of an argument-sequence view holds the view of the
/// argument at that position.
pub proof fn lemma_args_view_index(s: Seq<InstructionArgument>)
    ensures
        args_view(s).len() == s.len(),
        forall|j: int| 0 <= j < s.len() ==> args_view(s)[j] == #[trigger] s[j]@,
    decreases s.len(),
{
    if s.len() > 0 {
        lemma_args_view_index(s.drop_last());
        assert forall|j: int| 0 <= j < s.len() implies args_view(s)[j] == #[trigger] s[j]@ by {
            if j < s.len() - 1 {
                assert(args_view(s)[j] == args_view(s.drop_last())[j]);
                assert(s.drop_last()[j] == s[j]);
            }
        }
    }
}

/// The spec-level image of a line content.
pub enum LineContentView {
    Instruction { kind: InstructionKind, arguments: Seq<InstructionArgumentView> },
    Directive { kind: DirectiveKind, argument: DirectiveArgumentView },
}

impl View for LineContent {
    type V = LineContentView;

    open spec fn view(&self) -> LineContentView {
        match self {
            LineContent::Instruction { kind, arguments } => LineContentView::Instruction {
                kind: *kind,
                arguments: args_view(arguments@),
            },
            LineContent::Directive { kind, argument } => LineContentView::Directive {
                kind: *kind,
                argument: argument@,
            },
        }
    }
}

/// The spec-level image of a whole line.
pub struct LineView {
    pub symbols: Seq<Seq<char>>,
    pub content: Option<LineContentView>,
    pub comment: Option<Seq<char>>,
}

impl View for Line {
    type V = LineView;

    open spec fn view(&self) -> LineView {
        LineView {
            symbols: crate::strings::strings_view(self.symbols@),
            content: match self.content {
                Some(c) => Some(c@),
                None => None,
            },
            comment: match self.comment {
                Some(c) => Some(c@),
                None => None,
            },
        }
    }
}


// ------------------------------------------------------------------
// The line grammar.
// ------------------------------------------------------------------
//
//   line    := ( identifier ':' )* content? comment?
//   content := '.' directive-kind SP argument
//            | mnemonic ( SP argument ( ',' argument )* )?
//   comment := '#' .*
//
// Whitespace is permissive and an empty line is valid. A program is
// split into lines first, honouring backslash escapes (in particular a
// backslash-newline continuation); each line must then parse completely.

/// Fuel that outlasts any list of items over a tail of `rem` scalars.
pub open spec fn list_fuel(rem: int) -> nat {
    if rem < 0 {
        1
    } else if rem <= 0x00ff_ffff_ffff_ffff {
        (rem + 1) as nat
    } else {
        0xffff_ffff_ffff_ffff as nat
    }
}

/// Executable entry fuel for a tail that starts at `pos`.
pub(crate) fn list_fuel_at(len: usize, pos: usize) -> (r: u64)
    requires
        pos <= len,
    ensures
        r as nat == list_fuel(len - pos as int),
{
    let rem = (len - pos) as u64;
    if rem <= 0x00ff_ffff_ffff_ffff {
        rem + 1
    } else {
        0xffff_ffff_ffff_ffff
    }
}

/// Lower-case image of an ASCII letter; other scalars stay themselves.
pub open spec fn spec_to_lower(c: char) -> char {
    if 'A' <= c <= 'Z' {
        (((c as u8) + 32) as u8) as char
    } else {
        c
    }
}

/// The lower-cased image of a word.
pub open spec fn lower_seq(s: Seq<char>) -> Seq<char>
    decreases s.len(),
{
    if s.len() == 0 {
        Seq::empty()
    } else {
        lower_seq(s.drop_last()).push(spec_to_lower(s.last()))
    }
}

/// Lower-case an ASCII letter.
fn to_lower(c: char) -> (r: char)
    ensures
        r == spec_to_lower(c),
{
    if 'A' <= c && c <= 'Z' {
        ((c as u8) + 32) as char
    } else {
        c
    }
}

/// The lower-cased copy of a word.
fn lower_string(w: &String) -> (r: String)
    ensures
        r@ == lower_seq(w@),
{
    let chars = crate::strings::str_to_chars(w.as_str());
    let mut out: Vec<char> = Vec::new();
    let mut i: usize = 0;
    while i < chars.len()
        invariant
            i <= chars@.len(),
            chars@ == w@,
            out@ == lower_seq(w@.subrange(0, i as int)),
        decreases chars@.len() - i,
    {
        out.push(to_lower(chars[i]));
        proof {
            assert(w@.subrange(0, i as int + 1).drop_last() =~= w@.subrange(0, i as int));
            assert(w@.subrange(0, i as int + 1).last() == w@[i as int]);
        }
        i = i + 1;
    }
    proof {
        assert(w@.subrange(0, w@.len() as int) =~= w@);
    }
    crate::strings::chars_to_string(&out)
}

/// The directive kind a (lower-case) word names.
pub open spec fn spec_directive_kind_of(w: Seq<char>) -> Option<DirectiveKind> {
    if w == "word"@ {
        Some(DirectiveKind::Word)
    } else if w == "space"@ {
        Some(DirectiveKind::Space)
    } else if w == "addr"@ {
        Some(DirectiveKind::Addr)
    } else if w == "string"@ {
        Some(DirectiveKind::String)
    } else {
        None
    }
}

fn directive_kind_of(w: &String) -> (r: Option<DirectiveKind>)
    ensures
        r == spec_directive_kind_of(w@),
{
    if crate::strings::str_eq(w.as_str(), "word") {
        Some(DirectiveKind::Word)
    } else if crate::strings::str_eq(w.as_str(), "space") {
        Some(DirectiveKind::Space)
    } else if crate::strings::str_eq(w.as_str(), "addr") {
        Some(DirectiveKind::Addr)
    } else if crate::strings::str_eq(w.as_str(), "string") {
        Some(DirectiveKind::String)
    } else {
        None
    }
}

/// The mnemonic a lower-cased word names.
pub open spec fn spec_mnemonic_of(w: Seq<char>) -> Option<InstructionKind> {
    if w == "add"@ {
        Some(InstructionKind::Add)
    } else if w == "and"@ {
        Some(InstructionKind::And)
    } else if w == "call"@ {
        Some(InstructionKind::Call)
    } else if w == "cmp"@ {
        Some(InstructionKind::Cmp)
    } else if w == "div"@ {
        Some(InstructionKind::Div)
    } else if w == "fas"@ {
        Some(InstructionKind::Fas)
    } else if w == "in"@ {
        Some(InstructionKind::In)
    } else if w == "jmp"@ {
        Some(InstructionKind::Jmp)
    } else if w == "jeq"@ {
        Some(InstructionKind::Jeq)
    } else if w == "jne"@ {
        Some(InstructionKind::Jne)
    } else if w == "jle"@ {
        Some(InstructionKind::Jle)
    } else if w == "jlt"@ {
        Some(InstructionKind::Jlt)
    } else if w == "jge"@ {
        Some(InstructionKind::Jge)
    } else if w == "jgt"@ {
        Some(InstructionKind::Jgt)
    } else if w == "ld"@ {
        Some(InstructionKind::Ld)
    } else if w == "mul"@ {
        Some(InstructionKind::Mul)
    } else if w == "neg"@ {
        Some(InstructionKind::Neg)
    } else if w == "nop"@ {
        Some(InstructionKind::Nop)
    } else if w == "not"@ {
        Some(InstructionKind::Not)
    } else if w == "or"@ {
        Some(InstructionKind::Or)
    } else if w == "out"@ {
        Some(InstructionKind::Out)
    } else if w == "pop"@ {
        Some(InstructionKind::Pop)
    } else if w == "push"@ {
        Some(InstructionKind::Push)
    } else if w == "reset"@ {
        Some(InstructionKind::Reset)
    } else if w == "rti"@ {
        Some(InstructionKind::Rti)
    } else if w == "rtn"@ {
        Some(InstructionKind::Rtn)
    } else if w == "shl"@ {
        Some(InstructionKind::Shl)
    } else if w == "shr"@ {
        Some(InstructionKind::Shr)
    } else if w == "st"@ {
        Some(InstructionKind::St)
    } else if w == "sub"@ {
        Some(InstructionKind::Sub)
    } else if w == "swap"@ {
        Some(InstructionKind::Swap)
    } else if w == "trap"@ {
        Some(InstructionKind::Trap)
    } else if w == "xor"@ {
        Some(InstructionKind::Xor)
    } else {
        None
    }
}

fn mnemonic_of(w: &String) -> (r: Option<InstructionKind>)
    ensures
        r == spec_mnemonic_of(w@),
{
    if crate::strings::str_eq(w.as_str(), "add") {
        Some(InstructionKind::Add)
    } else if crate::strings::str_eq(w.as_str(), "and") {
        Some(InstructionKind::And)
    } else if crate::strings::str_eq(w.as_str(), "call") {
        Some(InstructionKind::Call)
    } else if crate::strings::str_eq(w.as_str(), "cmp") {
        Some(InstructionKind::Cmp)
    } else if crate::strings::str_eq(w.as_str(), "div") {
        Some(InstructionKind::Div)
    } else if crate::strings::str_eq(w.as_str(), "fas") {
        Some(InstructionKind::Fas)
    } else if crate::strings::str_eq(w.as_str(), "in") {
        Some(InstructionKind::In)
    } else if crate::strings::str_eq(w.as_str(), "jmp") {
        Some(InstructionKind::Jmp)
    } else if crate::strings::str_eq(w.as_str(), "jeq") {
        Some(InstructionKind::Jeq)
    } else if crate::strings::str_eq(w.as_str(), "jne") {
        Some(InstructionKind::Jne)
    } else if crate::strings::str_eq(w.as_str(), "jle") {
        Some(InstructionKind::Jle)
    } else if crate::strings::str_eq(w.as_str(), "jlt") {
        Some(InstructionKind::Jlt)
    } else if crate::strings::str_eq(w.as_str(), "jge") {
        Some(InstructionKind::Jge)
    } else if crate::strings::str_eq(w.as_str(), "jgt") {
        Some(InstructionKind::Jgt)
    } else if crate::strings::str_eq(w.as_str(), "ld") {
        Some(InstructionKind::Ld)
    } else if crate::strings::str_eq(w.as_str(), "mul") {
        Some(InstructionKind::Mul)
    } else if crate::strings::str_eq(w.as_str(), "neg") {
        Some(InstructionKind::Neg)
    } else if crate::strings::str_eq(w.as_str(), "nop") {
        Some(InstructionKind::Nop)
    } else if crate::strings::str_eq(w.as_str(), "not") {
        Some(InstructionKind::Not)
    } else if crate::strings::str_eq(w.as_str(), "or") {
        Some(InstructionKind::Or)
    } else if crate::strings::str_eq(w.as_str(), "out") {
        Some(InstructionKind::Out)
    } else if crate::strings::str_eq(w.as_str(), "pop") {
        Some(InstructionKind::Pop)
    } else if crate::strings::str_eq(w.as_str(), "push") {
        Some(InstructionKind::Push)
    } else if crate::strings::str_eq(w.as_str(), "reset") {
        Some(InstructionKind::Reset)
    } else if crate::strings::str_eq(w.as_str(), "rti") {
        Some(InstructionKind::Rti)
    } else if crate::strings::str_eq(w.as_str(), "rtn") {
        Some(InstructionKind::Rtn)
    } else if crate::strings::str_eq(w.as_str(), "shl") {
        Some(InstructionKind::Shl)
    } else if crate::strings::str_eq(w.as_str(), "shr") {
        Some(InstructionKind::Shr)
    } else if crate::strings::str_eq(w.as_str(), "st") {
        Some(InstructionKind::St)
    } else if crate::strings::str_eq(w.as_str(), "sub") {
        Some(InstructionKind::Sub)
    } else if crate::strings::str_eq(w.as_str(), "swap") {
        Some(InstructionKind::Swap)
    } else if crate::strings::str_eq(w.as_str(), "trap") {
        Some(InstructionKind::Trap)
    } else if crate::strings::str_eq(w.as_str(), "xor") {
        Some(InstructionKind::Xor)
    } else {
        None
    }
}

/// The register a word names.
pub open spec fn spec_reg_of(w: Seq<char>) -> Option<Reg> {
    if w == "a"@ {
        Some(Reg::A)
    } else if w == "b"@ {
        Some(Reg::B)
    } else if w == "pc"@ {
        Some(Reg::Pc)
    } else if w == "sp"@ {
        Some(Reg::Sp)
    } else if w == "sr"@ {
        Some(Reg::Sr)
    } else {
        None
    }
}

fn reg_of(w: &String) -> (r: Option<Reg>)
    ensures
        r == spec_reg_of(w@),
{
    if crate::strings::str_eq(w.as_str(), "a") {
        Some(Reg::A)
    } else if crate::strings::str_eq(w.as_str(), "b") {
        Some(Reg::B)
    } else if crate::strings::str_eq(w.as_str(), "pc") {
        Some(Reg::Pc)
    } else if crate::strings::str_eq(w.as_str(), "sp") {
        Some(Reg::Sp)
    } else if crate::strings::str_eq(w.as_str(), "sr") {
        Some(Reg::Sr)
    } else {
        None
    }
}

/// A register reference: `%` and a register name.
pub open spec fn spec_parse_register(s: Seq<char>, pos: int) -> Option<(Reg, int)> {
    if 0 <= pos < s.len() && crate::strings::char_at(s, pos as nat) == '%' {
        match crate::literal::spec_parse_identifier(s, pos + 1) {
            Some(t) => match spec_reg_of(t.0) {
                Some(r) => Some((r, t.1)),
                None => None,
            },
            None => None,
        }
    } else {
        None
    }
}

fn parse_register(s: &Vec<char>, pos: usize) -> (r: Option<(Reg, usize)>)
    requires
        pos <= s@.len(),
    ensures
        r matches Some(t) ==> spec_parse_register(s@, pos as int) == Some((t.0, t.1 as int)) && pos
            < t.1 <= s@.len(),
        r is None ==> spec_parse_register(s@, pos as int) is None,
{
    if pos < s.len() && s[pos] == '%' {
        match crate::literal::parse_identifier(s, pos + 1) {
            Some((w, p)) => match reg_of(&w) {
                Some(reg) => Some((reg, p)),
                None => None,
            },
            None => None,
        }
    } else {
        None
    }
}

/// One instruction argument: a register, an indirect or indexed register
/// reference, a direct memory reference, or an immediate expression.
pub open spec fn spec_parse_instruction_argument(s: Seq<char>, pos: int) -> Option<
    (InstructionArgumentView, int),
> {
    if 0 <= pos < s.len() && crate::strings::char_at(s, pos as nat) == '%' {
        match spec_parse_register(s, pos) {
            Some(t) => Some((InstructionArgumentView::Register(t.0), t.1)),
            None => None,
        }
    } else if 0 <= pos < s.len() && crate::strings::char_at(s, pos as nat) == '[' {
        let p1 = crate::literal::spec_skip_spaces(s, pos + 1);
        if p1 < s.len() && crate::strings::char_at(s, p1 as nat) == '%' {
            match spec_parse_register(s, p1) {
                Some(t) => {
                    let p3 = crate::literal::spec_skip_spaces(s, t.1);
                    if p3 < s.len() && crate::strings::char_at(s, p3 as nat) == ']' {
                        Some((InstructionArgumentView::Indirect(t.0), p3 + 1))
                    } else if p3 < s.len() && crate::strings::char_at(s, p3 as nat) == '+' {
                        match crate::expression::spec_parse_expression_at(s, p3 + 1) {
                            Some(u) => {
                                let p5 = crate::literal::spec_skip_spaces(s, u.1);
                                if p5 < s.len() && crate::strings::char_at(s, p5 as nat) == ']' {
                                    Some((InstructionArgumentView::Indexed(t.0, u.0), p5 + 1))
                                } else {
                                    None
                                }
                            },
                            None => None,
                        }
                    } else if p3 < s.len() && crate::strings::char_at(s, p3 as nat) == '-' {
                        match crate::expression::spec_parse_expression_at(s, p3) {
                            Some(u) => {
                                let p5 = crate::literal::spec_skip_spaces(s, u.1);
                                if p5 < s.len() && crate::strings::char_at(s, p5 as nat) == ']' {
                                    Some((InstructionArgumentView::Indexed(t.0, u.0), p5 + 1))
                                } else {
                                    None
                                }
                            },
                            None => None,
                        }
                    } else {
                        None
                    }
                },
                None => None,
            }
        } else {
            match crate::expression::spec_parse_expression_at(s, p1) {
                Some(u) => {
                    let p5 = crate::literal::spec_skip_spaces(s, u.1);
                    if p5 < s.len() && crate::strings::char_at(s, p5 as nat) == ']' {
                        Some((InstructionArgumentView::Direct(u.0), p5 + 1))
                    } else {
                        None
                    }
                },
                None => None,
            }
        }
    } else {
        match crate::expression::spec_parse_expression_at(s, pos) {
            Some(u) => Some((InstructionArgumentView::Value(u.0), u.1)),
            None => None,
        }
    }
}

fn parse_instruction_argument(s: &Vec<char>, pos: usize) -> (r: Option<(InstructionArgument, usize)>)
    requires
        pos <= s@.len(),
    ensures
        r matches Some(t) ==> spec_parse_instruction_argument(s@, pos as int) == Some(
            (t.0@, t.1 as int),
        ) && pos <= t.1 <= s@.len(),
        r is None ==> spec_parse_instruction_argument(s@, pos as int) is None,
{
    if pos < s.len() && s[pos] == '%' {
        match parse_register(s, pos) {
            Some((reg, p)) => Some((InstructionArgument::Register(reg), p)),
            None => None,
        }
    } else if pos < s.len() && s[pos] == '[' {
        let p1 = crate::literal::skip_spaces(s, pos + 1);
        if p1 < s.len() && s[p1] == '%' {
            match parse_register(s, p1) {
                Some((reg, p2)) => {
                    let p3 = crate::literal::skip_spaces(s, p2);
                    if p3 < s.len() && s[p3] == ']' {
                        Some((InstructionArgument::Indirect(reg), p3 + 1))
                    } else if p3 < s.len() && s[p3] == '+' {
                        match crate::expression::parse_expression_at(s, p3 + 1) {
                            Some((e, p4)) => {
                                let p5 = crate::literal::skip_spaces(s, p4);
                                if p5 < s.len() && s[p5] == ']' {
                                    Some((InstructionArgument::Indexed(reg, e), p5 + 1))
                                } else {
                                    None
                                }
                            },
                            None => None,
                        }
                    } else if p3 < s.len() && s[p3] == '-' {
                        match crate::expression::parse_expression_at(s, p3) {
                            Some((e, p4)) => {
                                let p5 = crate::literal::skip_spaces(s, p4);
                                if p5 < s.len() && s[p5] == ']' {
                                    Some((InstructionArgument::Indexed(reg, e), p5 + 1))
                                } else {
                                    None
                                }
                            },
                            None => None,
                        }
                    } else {
                        None
                    }
                },
                None => None,
            }
        } else {
            match crate::expression::parse_expression_at(s, p1) {
                Some((e, p4)) => {
                    let p5 = crate::literal::skip_spaces(s, p4);
                    if p5 < s.len() && s[p5] == ']' {
                        Some((InstructionArgument::Direct(e), p5 + 1))
                    } else {
                        None
                    }
                },
                None => None,
            }
        }
    } else {
        match crate::expression::parse_expression_at(s, pos) {
            Some((e, p)) => Some((InstructionArgument::Value(e), p)),
            None => None,
        }
    }
}

/// Further instruction arguments after `acc`: a comma, then an argument,
/// as long as both are there.
pub open spec fn spec_parse_args_rest(
    s: Seq<char>,
    pos: int,
    acc: Seq<InstructionArgumentView>,
    fuel: nat,
) -> (Seq<InstructionArgumentView>, int)
    decreases fuel,
{
    if fuel == 0 {
        (acc, pos)
    } else {
        let p = crate::literal::spec_skip_spaces(s, pos);
        if p < s.len() && crate::strings::char_at(s, p as nat) == ',' {
            let q = crate::literal::spec_skip_spaces(s, p + 1);
            match spec_parse_instruction_argument(s, q) {
                Some(t) => spec_parse_args_rest(s, t.1, acc.push(t.0), (fuel - 1) as nat),
                None => (acc, pos),
            }
        } else {
            (acc, pos)
        }
    }
}

fn parse_args_rest(s: &Vec<char>, pos: usize, acc: Vec<InstructionArgument>, fuel: u64) -> (r: (
    Vec<InstructionArgument>,
    usize,
))
    requires
        pos <= s@.len(),
    ensures
        spec_parse_args_rest(s@, pos as int, args_view(acc@), fuel as nat) == (
            args_view(r.0@),
            r.1 as int,
        ),
        pos <= r.1 <= s@.len(),
    decreases fuel,
{
    if fuel == 0 {
        return (acc, pos);
    }
    let p = crate::literal::skip_spaces(s, pos);
    if p < s.len() && s[p] == ',' {
        let q = crate::literal::skip_spaces(s, p + 1);
        match parse_instruction_argument(s, q) {
            Some((arg, p2)) => {
                let ghost prior = acc@;
                let mut acc = acc;
                acc.push(arg);
                proof {
                    assert(acc@.drop_last() =~= prior);
                    assert(args_view(acc@) == args_view(prior).push(acc@.last()@));
                }
                parse_args_rest(s, p2, acc, fuel - 1)
            },
            None => (acc, pos),
        }
    } else {
        (acc, pos)
    }
}

/// The content of a line: a directive or an instruction.
pub open spec fn spec_parse_content(s: Seq<char>, pos: int) -> Option<(LineContentView, int)> {
    if 0 <= pos < s.len() && crate::strings::char_at(s, pos as nat) == '.' {
        match crate::literal::spec_parse_identifier(s, pos + 1) {
            Some(t) => match spec_directive_kind_of(t.0) {
                Some(kind) => {
                    let p2 = crate::literal::spec_skip_spaces(s, t.1);
                    if p2 > t.1 {
                        if crate::literal::spec_parse_string_literal(s, p2) is Some {
                            let u = crate::literal::spec_parse_string_literal(s, p2)->Some_0;
                            Some(
                                (
                                    LineContentView::Directive {
                                        kind,
                                        argument: DirectiveArgumentView::StringLiteral(u.0),
                                    },
                                    u.1,
                                ),
                            )
                        } else {
                            match crate::expression::spec_parse_expression_at(s, p2) {
                                Some(u) => Some(
                                    (
                                        LineContentView::Directive {
                                            kind,
                                            argument: DirectiveArgumentView::Expression(u.0),
                                        },
                                        u.1,
                                    ),
                                ),
                                None => None,
                            }
                        }
                    } else {
                        None
                    }
                },
                None => None,
            },
            None => None,
        }
    } else {
        match crate::literal::spec_parse_identifier(s, pos) {
            Some(t) => match spec_mnemonic_of(lower_seq(t.0)) {
                Some(kind) => {
                    let p2 = crate::literal::spec_skip_spaces(s, t.1);
                    if p2 > t.1 && spec_parse_instruction_argument(s, p2) is Some {
                        let u = spec_parse_instruction_argument(s, p2)->Some_0;
                        let rest = spec_parse_args_rest(
                            s,
                            u.1,
                            Seq::empty().push(u.0),
                            list_fuel(s.len() - u.1),
                        );
                        Some(
                            (
                                LineContentView::Instruction { kind, arguments: rest.0 },
                                rest.1,
                            ),
                        )
                    } else {
                        Some(
                            (
                                LineContentView::Instruction {
                                    kind,
                                    arguments: Seq::empty(),
                                },
                                t.1,
                            ),
                        )
                    }
                },
                None => None,
            },
            None => None,
        }
    }
}

#[verifier::spinoff_prover]
#[verifier::rlimit(100)]
fn parse_content(s: &Vec<char>, pos: usize) -> (r: Option<(LineContent, usize)>)
    requires
        pos <= s@.len(),
    ensures
        r matches Some(t) ==> spec_parse_content(s@, pos as int) == Some((t.0@, t.1 as int)) && pos
            <= t.1 <= s@.len(),
        r is None ==> spec_parse_content(s@, pos as int) is None,
{
    if pos < s.len() && s[pos] == '.' {
        match crate::literal::parse_identifier(s, pos + 1) {
            Some((w, p)) => match directive_kind_of(&w) {
                Some(kind) => {
                    let p2 = crate::literal::skip_spaces(s, p);
                    if p2 > p {
                        match crate::literal::parse_string_literal(s, p2) {
                            Some((lit, q)) => Some(
                                (
                                    LineContent::Directive {
                                        kind,
                                        argument: DirectiveArgument::StringLiteral(lit),
                                    },
                                    q,
                                ),
                            ),
                            None => match crate::expression::parse_expression_at(s, p2) {
                                Some((e, q)) => Some(
                                    (
                                        LineContent::Directive {
                                            kind,
                                            argument: DirectiveArgument::Expression(e),
                                        },
                                        q,
                                    ),
                                ),
                                None => None,
                            },
                        }
                    } else {
                        None
                    }
                },
                None => None,
            },
            None => None,
        }
    } else {
        match crate::literal::parse_identifier(s, pos) {
            Some((w, p)) => {
                let lowered = lower_string(&w);
                match mnemonic_of(&lowered) {
                    Some(kind) => {
                        let p2 = crate::literal::skip_spaces(s, p);
                        if p2 > p {
                            match parse_instruction_argument(s, p2) {
                                Some((first, q)) => {
                                    let mut args: Vec<InstructionArgument> = Vec::new();
                                    args.push(first);
                                    proof {
                                        assert(args@.drop_last() =~= Seq::<
                                            InstructionArgument,
                                        >::empty());
                                        assert(args_view(Seq::<InstructionArgument>::empty())
                                            =~= Seq::<InstructionArgumentView>::empty());
                                        assert(args_view(args@) =~= Seq::<
                                            InstructionArgumentView,
                                        >::empty().push(args@.last()@));
                                    }
                                    let fuel = list_fuel_at(s.len(), q);
                                    let (args, q2) = parse_args_rest(s, q, args, fuel);
                                    Some(
                                        (
                                            LineContent::Instruction { kind, arguments: args },
                                            q2,
                                        ),
                                    )
                                },
                                None => Some(
                                    (
                                        LineContent::Instruction {
                                            kind,
                                            arguments: Vec::new(),
                                        },
                                        p,
                                    ),
                                ),
                            }
                        } else {
                            Some((LineContent::Instruction { kind, arguments: Vec::new() }, p))
                        }
                    },
                    None => None,
                }
            },
            None => None,
        }
    }
}

/// The end of a comment: everything up to a line break or the end.
pub open spec fn spec_comment_end(s: Seq<char>, pos: int) -> int
    decreases s.len() - pos,
{
    if 0 <= pos < s.len() && crate::strings::char_at(s, pos as nat) != '\n'
        && crate::strings::char_at(s, pos as nat) != '\r' {
        spec_comment_end(s, pos + 1)
    } else {
        pos
    }
}

pub(crate) fn comment_end(s: &Vec<char>, pos: usize) -> (r: usize)
    requires
        pos <= s@.len(),
    ensures
        r == spec_comment_end(s@, pos as int),
        pos <= r <= s@.len(),
    decreases s@.len() - pos,
{
    if pos < s.len() && s[pos] != '\n' && s[pos] != '\r' {
        comment_end(s, pos + 1)
    } else {
        pos
    }
}

/// The symbol definitions at the head of a line: identifiers followed by
/// a colon, with permissive spacing.
pub open spec fn spec_parse_symbols(s: Seq<char>, pos: int, acc: Seq<Seq<char>>, fuel: nat) -> (
    Seq<Seq<char>>,
    int,
)
    decreases fuel,
{
    if fuel == 0 {
        (acc, pos)
    } else {
        match crate::literal::spec_parse_identifier(s, pos) {
            Some(t) => {
                let p2 = crate::literal::spec_skip_spaces(s, t.1);
                if p2 < s.len() && crate::strings::char_at(s, p2 as nat) == ':' {
                    spec_parse_symbols(
                        s,
                        crate::literal::spec_skip_spaces(s, p2 + 1),
                        acc.push(t.0),
                        (fuel - 1) as nat,
                    )
                } else {
                    (acc, pos)
                }
            },
            None => (acc, pos),
        }
    }
}

fn parse_symbols(s: &Vec<char>, pos: usize, acc: Vec<String>, fuel: u64) -> (r: (Vec<String>, usize))
    requires
        pos <= s@.len(),
    ensures
        spec_parse_symbols(s@, pos as int, crate::strings::strings_view(acc@), fuel as nat) == (
            crate::strings::strings_view(r.0@),
            r.1 as int,
        ),
        pos <= r.1 <= s@.len(),
    decreases fuel,
{
    if fuel == 0 {
        return (acc, pos);
    }
    match crate::literal::parse_identifier(s, pos) {
        Some((name, p)) => {
            let p2 = crate::literal::skip_spaces(s, p);
            if p2 < s.len() && s[p2] == ':' {
                let q = crate::literal::skip_spaces(s, p2 + 1);
                let ghost prior = acc@;
                let mut acc = acc;
                acc.push(name);
                proof {
                    assert(acc@.drop_last() =~= prior);
                    assert(crate::strings::strings_view(acc@) == crate::strings::strings_view(
                        prior,
                    ).push(acc@.last()@));
                }
                parse_symbols(s, q, acc, fuel - 1)
            } else {
                (acc, pos)
            }
        },
        None => (acc, pos),
    }
}

/// One whole line: symbol definitions, an optional content, an optional
/// comment, and nothing else.
#[verifier::opaque]
pub open spec fn spec_parse_line(s: Seq<char>) -> Option<LineView> {
    let p0 = crate::literal::spec_skip_spaces(s, 0);
    let sy = spec_parse_symbols(s, p0, Seq::empty(), list_fuel(s.len() - p0));
    let p1 = crate::literal::spec_skip_spaces(s, sy.1);
    let ct = match spec_parse_content(s, p1) {
        Some(t) => (Some(t.0), t.1),
        None => (None, p1),
    };
    let p3 = crate::literal::spec_skip_spaces(s, ct.1);
    let cm = if p3 < s.len() && crate::strings::char_at(s, p3 as nat) == '#' {
        let e = spec_comment_end(s, p3);
        (Some(s.subrange(p3, e)), e)
    } else {
        (None, p3)
    };
    if cm.1 == s.len() {
        Some(LineView { symbols: sy.0, content: ct.0, comment: cm.0 })
    } else {
        None
    }
}

/// Parse one line of a program, given as the characters of the line.
pub fn parse_line_chars(s: &Vec<char>) -> (r: Option<Line>)
    ensures
        r matches Some(l) ==> spec_parse_line(s@) == Some(l@),
        r is None ==> spec_parse_line(s@) is None,
{
    proof {
        reveal(spec_parse_line);
    }
    let p0 = crate::literal::skip_spaces(s, 0);
    let fuel = list_fuel_at(s.len(), p0);
    proof {
        assert(crate::strings::strings_view(Seq::<String>::empty()) =~= Seq::<Seq<char>>::empty());
    }
    let (symbols, p1a) = parse_symbols(s, p0, Vec::new(), fuel);
    let p1 = crate::literal::skip_spaces(s, p1a);
    let (content, p2) = match parse_content(s, p1) {
        Some((c, p2)) => (Some(c), p2),
        None => (None, p1),
    };
    let p3 = crate::literal::skip_spaces(s, p2);
    let (comment, p4) = if p3 < s.len() && s[p3] == '#' {
        let e = comment_end(s, p3);
        let mut text: Vec<char> = Vec::new();
        let mut i: usize = p3;
        while i < e
            invariant
                p3 <= i <= e <= s@.len(),
                text@ == s@.subrange(p3 as int, i as int),
            decreases e - i,
        {
            text.push(s[i]);
            proof {
                assert(text@ =~= s@.subrange(p3 as int, i as int + 1));
            }
            i = i + 1;
        }
        (Some(crate::strings::chars_to_string(&text)), e)
    } else {
        (None, p3)
    };
    if p4 == s.len() {
        Some(Line { symbols, content, comment })
    } else {
        None
    }
}

/// Parse one line of a program.
pub fn parse_line(input: &str) -> (r: Option<Line>)
    ensures
        r matches Some(l) ==> spec_parse_line(input@) == Some(l@),
        r is None ==> spec_parse_line(input@) is None,
{
    let chars = crate::strings::str_to_chars(input);
    parse_line_chars(&chars)
}


/// The end of the line content starting at `pos`: scan until a line
/// break or the end, where a backslash escapes the next scalar (so an
/// escaped line break continues the same line). A dangling backslash or
/// an unknown escape is none.
pub open spec fn spec_scan_line(s: Seq<char>, pos: int) -> Option<int>
    decreases s.len() - pos,
{
    if pos < 0 || pos >= s.len() {
        Some(pos)
    } else if crate::strings::char_at(s, pos as nat) == '\n' || crate::strings::char_at(
        s,
        pos as nat,
    ) == '\r' {
        Some(pos)
    } else if crate::strings::char_at(s, pos as nat) == '\\' {
        if pos + 1 < s.len() && (crate::strings::char_at(s, (pos + 1) as nat) == '\\'
            || crate::strings::char_at(s, (pos + 1) as nat) == '\n' || crate::strings::char_at(
            s,
            (pos + 1) as nat,
        ) == '\r' || crate::strings::char_at(s, (pos + 1) as nat) == 'r'
            || crate::strings::char_at(s, (pos + 1) as nat) == 'n' || crate::strings::char_at(
            s,
            (pos + 1) as nat,
        ) == 't' || crate::strings::char_at(s, (pos + 1) as nat) == '"') {
            spec_scan_line(s, pos + 2)
        } else {
            None
        }
    } else {
        spec_scan_line(s, pos + 1)
    }
}

fn scan_line(s: &Vec<char>, pos: usize) -> (r: Option<usize>)
    requires
        pos <= s@.len(),
    ensures
        r matches Some(e) ==> spec_scan_line(s@, pos as int) == Some(e as int) && pos <= e
            <= s@.len(),
        r is None ==> spec_scan_line(s@, pos as int) is None,
    decreases s@.len() - pos,
{
    if pos >= s.len() {
        Some(pos)
    } else if s[pos] == '\n' || s[pos] == '\r' {
        Some(pos)
    } else if s[pos] == '\\' {
        if pos + 1 < s.len() && (s[pos + 1] == '\\' || s[pos + 1] == '\n' || s[pos + 1] == '\r'
            || s[pos + 1] == 'r' || s[pos + 1] == 'n' || s[pos + 1] == 't' || s[pos + 1] == '"') {
            scan_line(s, pos + 2)
        } else {
            None
        }
    } else {
        scan_line(s, pos + 1)
    }
}

/// Split a source into its lines from `pos` on, keeping escapes verbatim;
/// line endings are a newline or a carriage-return-newline pair.
pub open spec fn spec_split_lines_from(
    s: Seq<char>,
    pos: int,
    acc: Seq<Seq<char>>,
    fuel: nat,
) -> Option<Seq<Seq<char>>>
    decreases fuel,
{
    if fuel == 0 {
        None
    } else {
        match spec_scan_line(s, pos) {
            Some(end) => {
                let acc2 = acc.push(s.subrange(pos, end));
                if end >= s.len() {
                    Some(acc2)
                } else if crate::strings::char_at(s, end as nat) == '\n' {
                    spec_split_lines_from(s, end + 1, acc2, (fuel - 1) as nat)
                } else if end + 1 < s.len() && crate::strings::char_at(s, (end + 1) as nat)
                    == '\n' {
                    spec_split_lines_from(s, end + 2, acc2, (fuel - 1) as nat)
                } else {
                    None
                }
            },
            None => None,
        }
    }
}

/// The lines of a source text.
pub open spec fn spec_split_lines(s: Seq<char>) -> Option<Seq<Seq<char>>> {
    spec_split_lines_from(s, 0, Seq::empty(), list_fuel(s.len() as int))
}

fn split_lines_from(s: &Vec<char>, pos: usize, acc: Vec<String>, fuel: u64) -> (r: Option<
    Vec<String>,
>)
    requires
        pos <= s@.len(),
    ensures
        r matches Some(v) ==> spec_split_lines_from(
            s@,
            pos as int,
            crate::strings::strings_view(acc@),
            fuel as nat,
        ) == Some(crate::strings::strings_view(v@)),
        r is None ==> spec_split_lines_from(
            s@,
            pos as int,
            crate::strings::strings_view(acc@),
            fuel as nat,
        ) is None,
    decreases fuel,
{
    if fuel == 0 {
        return None;
    }
    match scan_line(s, pos) {
        Some(end) => {
            let mut text: Vec<char> = Vec::new();
            let mut i: usize = pos;
            while i < end
                invariant
                    pos <= i <= end <= s@.len(),
                    text@ == s@.subrange(pos as int, i as int),
                decreases end - i,
            {
                text.push(s[i]);
                proof {
                    assert(text@ =~= s@.subrange(pos as int, i as int + 1));
                }
                i = i + 1;
            }
            let ghost prior = acc@;
            let mut acc = acc;
            acc.push(crate::strings::chars_to_string(&text));
            proof {
                assert(acc@.drop_last() =~= prior);
                assert(crate::strings::strings_view(acc@) == crate::strings::strings_view(
                    prior,
                ).push(acc@.last()@));
            }
            if end >= s.len() {
                Some(acc)
            } else if s[end] == '\n' {
                split_lines_from(s, end + 1, acc, fuel - 1)
            } else if end + 1 < s.len() && s[end + 1] == '\n' {
                split_lines_from(s, end + 2, acc, fuel - 1)
            } else {
                None
            }
        },
        None => None,
    }
}

/// Split a source text into its lines, escapes kept verbatim.
pub fn split_lines(input: &str) -> (r: Option<Vec<String>>)
    ensures
        r matches Some(v) ==> spec_split_lines(input@) == Some(crate::strings::strings_view(v@)),
        r is None ==> spec_split_lines(input@) is None,
{
    let chars = crate::strings::str_to_chars(input);
    let fuel = list_fuel_at(chars.len(), 0);
    proof {
        assert(crate::strings::strings_view(Seq::<String>::empty()) =~= Seq::<Seq<char>>::empty());
    }
    split_lines_from(&chars, 0, Vec::new(), fuel)
}

/// The line of `lines` at position `i`.
pub open spec fn line_at(lines: Seq<Seq<char>>, i: nat) -> Seq<char> {
    lines[i as int]
}

/// The views of a sequence of parsed lines, in order.
pub open spec fn lines_view(s: Seq<Line>) -> Seq<LineView>
    decreases s.len(),
{
    if s.len() == 0 {
        Seq::empty()
    } else {
        lines_view(s.drop_last()).push(s.last()@)
    }
}

/// Parse every line of `lines` from position `i` on.
pub open spec fn spec_parse_lines_from(
    lines: Seq<Seq<char>>,
    i: nat,
    acc: Seq<LineView>,
) -> Option<Seq<LineView>>
    decreases lines.len() - i,
{
    if i >= lines.len() {
        Some(acc)
    } else {
        match spec_parse_line(line_at(lines, i)) {
            Some(lv) => spec_parse_lines_from(lines, i + 1, acc.push(lv)),
            None => None,
        }
    }
}

/// A whole program: its lines split and each parsed completely.
pub open spec fn spec_parse_program(s: Seq<char>) -> Option<Seq<LineView>> {
    match spec_split_lines(s) {
        Some(lines) => spec_parse_lines_from(lines, 0, Seq::empty()),
        None => None,
    }
}

/// Parse a whole program into its lines.
#[verifier::spinoff_prover]
#[verifier::rlimit(100)]
#[verifier::loop_isolation(false)]
pub fn parse_program(input: &str) -> (r: Option<Vec<Line>>)
    ensures
        r matches Some(v) ==> spec_parse_program(input@) == Some(lines_view(v@)),
        r is None ==> spec_parse_program(input@) is None,
{
    let raw = match split_lines(input) {
        Some(v) => v,
        None => {
            return None;
        },
    };
    let ghost raw_views = crate::strings::strings_view(raw@);
    proof {
        crate::strings::lemma_strings_view_index(raw@);
    }
    let mut out: Vec<Line> = Vec::new();
    let mut i: usize = 0;
    proof {
        assert(lines_view(Seq::<Line>::empty()) =~= Seq::<LineView>::empty());
    }
    while i < raw.len()
        invariant
            i <= raw@.len(),
            raw_views == crate::strings::strings_view(raw@),
            spec_parse_lines_from(raw_views, i as nat, lines_view(out@)) == spec_parse_lines_from(
                raw_views,
                0,
                Seq::empty(),
            ),
        decreases raw@.len() - i,
    {
        proof {
            crate::strings::lemma_strings_view_index(raw@);
        }
        let chars = crate::strings::str_to_chars(raw[i].as_str());
        match parse_line_chars(&chars) {
            Some(line) => {
                let ghost prior = out@;
                out.push(line);
                proof {
                    assert(out@.drop_last() =~= prior);
                    assert(lines_view(out@) == lines_view(prior).push(out@.last()@));
                    assert(line_at(raw_views, i as nat) == raw@[i as int]@);
                }
            },
            None => {
                return None;
            },
        }
        i = i + 1;
    }
    proof {
        crate::strings::lemma_strings_view_index(raw@);
    }
    Some(out)
}

} // verus!
