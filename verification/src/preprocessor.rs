//! The preprocessor: object-like definitions, conditional blocks,
//! recursive file inclusion with cycle detection, and user errors.
//!
//! A source is parsed into a tree of chunks — raw lines and `#`-directives
//! — with source spans preserved. A second pass walks the tree with the
//! current definition table: raw lines have whole-word occurrences of
//! defined names replaced and are emitted; conditions are evaluated as
//! constant expressions over the definitions; inclusions are resolved
//! against the directory of the current file and preprocessed recursively,
//! re-entering a file that is still being processed is a cycle error.
//!
//! Both passes are exact: every chunk parser returns precisely what its
//! spec-level twin over the chunk views says, and the processing pass
//! returns precisely what the model [`spec_preprocess`] says, down to the
//! first error met.

use vstd::prelude::*;

use crate::expression::Context;
use crate::expression::EmptyContext;
use crate::expression::Value;
use crate::expression::WidthHint;
use crate::expression::spec_evaluate;
use crate::expression::spec_parse_expression;
use crate::location::Located;
use crate::location::Span;
use crate::strings::char_at;
use crate::strings::chars_to_string;
use crate::strings::str_eq;
use crate::strings::str_to_chars;
use crate::strings::str_to_string;

verus! {

broadcast use vstd::seq::group_seq_axioms;


/// A list of located chunks, as the body of a file or of a branch.
pub type Children = Vec<Located<Node>>;

/// One branch of a conditional block: its condition text and its body.
#[derive(Debug, PartialEq)]
pub struct ConditionBranch {
    pub condition: Located<String>,
    pub body: Located<Children>,
}

/// One chunk of a source file at the preprocessor layer.
#[derive(Debug, PartialEq)]
pub enum Node {
    /// A line the preprocessor does not touch (but for substitution).
    Raw { content: String },
    /// `#error "msg"`: fail with the user's message.
    Error { message: Located<String> },
    /// `#undefine NAME`.
    Undefine { key: Located<String> },
    /// `#define NAME [BODY]`.
    Definition { key: Located<String>, content: Option<Located<String>> },
    /// An inclusion directive naming another file.
    Inclusion { path: Located<String> },
    /// `#if` / `#elif` / `#else` / `#endif`.
    Condition { branches: Vec<ConditionBranch>, fallback: Option<Located<Children>> },
}

/// What preprocessing can fail with.
#[derive(Debug, PartialEq)]
pub enum PreprocessorError {
    /// The filesystem does not know the path.
    FileNotFound { path: String },
    /// A file was reached again while it was still being processed.
    IncludeCycle { path: String },
    /// A conditional names something the definitions do not resolve.
    UndefinedConditionalName { name: String },
    /// A directive that cannot be read: a bad condition, or trailing
    /// text where a directive was expected.
    MalformedDirective { span: Span },
    /// `#error` fired, with its message.
    UserError { msg: String, span: Span },
}

// ------------------------------------------------------------------
// The definition table.
// ------------------------------------------------------------------

/// The binding an entry list gives a name: later entries win; a `None`
/// value records an `#undefine`.
pub open spec fn defs_lookup(s: Seq<(String, Option<String>)>, name: Seq<char>) -> Option<
    Option<Seq<char>>,
>
    decreases s.len(),
{
    if s.len() == 0 {
        None
    } else if s.last().0@ == name {
        match s.last().1 {
            Some(body) => Some(Some(body@)),
            None => Some(None),
        }
    } else {
        defs_lookup(s.drop_last(), name)
    }
}

/// The definition table: names bound to bodies, in binding order, with
/// `#undefine` recorded as an unbinding.
pub struct Defs {
    pub entries: Vec<(String, Option<String>)>,
}

impl Defs {
    /// An empty table.
    pub fn new() -> (r: Defs)
        ensures
            r.entries@ == Seq::<(String, Option<String>)>::empty(),
    {
        Defs { entries: Vec::new() }
    }

    /// The body `name` is bound to: none when never bound or unbound,
    /// the body of the latest binding otherwise.
    pub fn get(&self, name: &str) -> (r: Option<Option<String>>)
        ensures
            match r {
                Some(Some(body)) => defs_lookup(self.entries@, name@) == Some(Some(body@)),
                Some(None) => defs_lookup(self.entries@, name@) == Some(None::<Seq<char>>),
                None => defs_lookup(self.entries@, name@) is None,
            },
    {
        let n = self.entries.len();
        proof {
            assert(self.entries@.subrange(0, n as int) =~= self.entries@);
        }
        let mut i: usize = n;
        while i > 0
            invariant
                n == self.entries@.len(),
                i <= n,
                defs_lookup(self.entries@.subrange(0, i as int), name@) == defs_lookup(
                    self.entries@,
                    name@,
                ),
            decreases i,
        {
            proof {
                assert(self.entries@.subrange(0, i as int).drop_last() =~= self.entries@.subrange(
                    0,
                    i as int - 1,
                ));
            }
            i = i - 1;
            if str_eq(self.entries[i].0.as_str(), name) {
                match &self.entries[i].1 {
                    Some(body) => {
                        return Some(Some(crate::expression::clone_string(body)));
                    },
                    None => {
                        return Some(None);
                    },
                }
            }
        }
        proof {
            assert(self.entries@.subrange(0, 0) =~= Seq::<(String, Option<String>)>::empty());
        }
        None
    }

    /// Bind `name` to `body`; a `None` body records an `#undefine`.
    pub fn set(&mut self, name: String, body: Option<String>)
        ensures
            final(self).entries@ == old(self).entries@.push((name, body)),
    {
        self.entries.push((name, body));
    }
}

/// The spec-level image of the definition table: names and bodies as
/// character sequences, an `#undefine` as a `None` body.
pub open spec fn defs_view(s: Seq<(String, Option<String>)>) -> Seq<(Seq<char>, Option<Seq<char>>)>
    decreases s.len(),
{
    if s.len() == 0 {
        Seq::empty()
    } else {
        defs_view(s.drop_last()).push(
            (
                s.last().0@,
                match s.last().1 {
                    Some(b) => Some(b@),
                    None => None,
                },
            ),
        )
    }
}

/// The binding a spec-level entry list gives a name: later entries win.
pub open spec fn defs_lookup_v(
    s: Seq<(Seq<char>, Option<Seq<char>>)>,
    name: Seq<char>,
) -> Option<Option<Seq<char>>>
    decreases s.len(),
{
    if s.len() == 0 {
        None
    } else if s.last().0 == name {
        Some(s.last().1)
    } else {
        defs_lookup_v(s.drop_last(), name)
    }
}

/// The two lookups agree through the view.
pub proof fn lemma_defs_lookup_view(s: Seq<(String, Option<String>)>, name: Seq<char>)
    ensures
        defs_lookup(s, name) == defs_lookup_v(defs_view(s), name),
    decreases s.len(),
{
    if s.len() > 0 {
        lemma_defs_lookup_view(s.drop_last(), name);
        assert(defs_view(s).drop_last() =~= defs_view(s.drop_last()));
    }
}

/// How the definitions resolve a name in a condition: the name's body,
/// parsed completely as an expression and evaluated with no further
/// names, against the full value width. A name that is unbound, unbound
/// again, bodiless or not a constant expression resolves to nothing.
pub open spec fn spec_defs_value(
    defs: Seq<(Seq<char>, Option<Seq<char>>)>,
    name: Seq<char>,
) -> Option<Value> {
    match defs_lookup_v(defs, name) {
        Some(Some(body)) => match spec_parse_expression(body) {
            Some(t) => if t.1 == body.len() {
                match spec_evaluate(t.0, Map::<Seq<char>, Value>::empty(), WidthHint::Full) {
                    Ok(v) => Some(v),
                    Err(_) => None,
                }
            } else {
                None
            },
            None => None,
        },
        _ => None,
    }
}

/// The expression environment a definition table denotes.
pub open spec fn env_of(defs: Seq<(Seq<char>, Option<Seq<char>>)>) -> Map<Seq<char>, Value> {
    Map::new(
        |k: Seq<char>| spec_defs_value(defs, k) is Some,
        |k: Seq<char>| spec_defs_value(defs, k)->Some_0,
    )
}

impl Context for Defs {
    open spec fn env(&self) -> Map<Seq<char>, Value> {
        env_of(defs_view(self.entries@))
    }

    fn resolve_variable(&self, variable: &str) -> (r: Option<Value>) {
        proof {
            lemma_defs_lookup_view(self.entries@, variable@);
        }
        match self.get(variable) {
            Some(Some(body)) => {
                let chars = str_to_chars(body.as_str());
                match crate::expression::parse_expression_at(&chars, 0) {
                    Some((node, used)) => {
                        if used == chars.len() {
                            match node.evaluate(&EmptyContext, WidthHint::Full) {
                                Ok(v) => Some(v),
                                Err(_) => None,
                            }
                        } else {
                            None
                        }
                    },
                    None => None,
                }
            },
            _ => None,
        }
    }
}

// ------------------------------------------------------------------
// The in-memory filesystem.
// ------------------------------------------------------------------

/// The text an entry list gives a path: later entries win.
pub open spec fn fs_lookup(s: Seq<(String, String)>, path: Seq<char>) -> Option<Seq<char>>
    decreases s.len(),
{
    if s.len() == 0 {
        None
    } else if s.last().0@ == path {
        Some(s.last().1@)
    } else {
        fs_lookup(s.drop_last(), path)
    }
}

/// A filesystem held in memory: paths mapped to their text. It backs
/// the preprocessor in tests and wherever the caller gathers the files
/// first.
pub struct InMemoryFilesystem {
    pub entries: Vec<(String, String)>,
}

impl InMemoryFilesystem {
    /// An empty filesystem.
    pub fn new() -> (r: InMemoryFilesystem)
        ensures
            r.entries@ == Seq::<(String, String)>::empty(),
    {
        InMemoryFilesystem { entries: Vec::new() }
    }

    /// Add a file.
    pub fn add(&mut self, path: String, text: String)
        ensures
            final(self).entries@ == old(self).entries@.push((path, text)),
    {
        self.entries.push((path, text));
    }

    /// The text at `path`, if any.
    pub fn get(&self, path: &str) -> (r: Option<String>)
        ensures
            r matches Some(text) ==> fs_lookup(self.entries@, path@) == Some(text@),
            r is None ==> fs_lookup(self.entries@, path@) is None,
    {
        let n = self.entries.len();
        proof {
            assert(self.entries@.subrange(0, n as int) =~= self.entries@);
        }
        let mut i: usize = n;
        while i > 0
            invariant
                n == self.entries@.len(),
                i <= n,
                fs_lookup(self.entries@.subrange(0, i as int), path@) == fs_lookup(
                    self.entries@,
                    path@,
                ),
            decreases i,
        {
            proof {
                assert(self.entries@.subrange(0, i as int).drop_last() =~= self.entries@.subrange(
                    0,
                    i as int - 1,
                ));
            }
            i = i - 1;
            if str_eq(self.entries[i].0.as_str(), path) {
                return Some(crate::expression::clone_string(&self.entries[i].1));
            }
        }
        proof {
            assert(self.entries@.subrange(0, 0) =~= Seq::<(String, String)>::empty());
        }
        None
    }
}

// ------------------------------------------------------------------
// Spec-level views of the chunk tree.
// ------------------------------------------------------------------

/// The spec-level image of one branch of a conditional block.
pub struct BranchView {
    pub condition: Seq<char>,
    pub cond_span: Span,
    pub body: Seq<(ChunkView, Span)>,
    pub body_span: Span,
}

/// The spec-level image of one chunk.
pub enum ChunkView {
    Raw(Seq<char>),
    Error { message: Seq<char>, span: Span },
    Undefine { key: Seq<char>, span: Span },
    Definition { key: Seq<char>, key_span: Span, content: Option<(Seq<char>, Span)> },
    Inclusion { path: Seq<char>, span: Span },
    Condition { branches: Seq<BranchView>, fallback: Option<(Seq<(ChunkView, Span)>, Span)> },
}

/// The view of a fallback body, if any.
pub open spec fn fallback_view(f: Option<Located<Children>>) -> Option<(Seq<(ChunkView, Span)>, Span)>
    decreases f,
{
    match f {
        Some(l) => Some((chunks_view(l.inner@), l.location)),
        None => None,
    }
}

/// The view of one chunk.
pub open spec fn chunk_view(n: Node) -> ChunkView
    decreases n,
{
    match n {
        Node::Raw { content } => ChunkView::Raw(content@),
        Node::Error { message } => ChunkView::Error {
            message: message.inner@,
            span: message.location,
        },
        Node::Undefine { key } => ChunkView::Undefine { key: key.inner@, span: key.location },
        Node::Definition { key, content } => ChunkView::Definition {
            key: key.inner@,
            key_span: key.location,
            content: match content {
                Some(c) => Some((c.inner@, c.location)),
                None => None,
            },
        },
        Node::Inclusion { path } => ChunkView::Inclusion { path: path.inner@, span: path.location },
        Node::Condition { branches, fallback } => ChunkView::Condition {
            branches: branches_view(branches@),
            fallback: fallback_view(fallback),
        },
    }
}

/// The view of one conditional branch.
pub open spec fn branch_view(b: ConditionBranch) -> BranchView
    decreases b,
{
    BranchView {
        condition: b.condition.inner@,
        cond_span: b.condition.location,
        body: chunks_view(b.body.inner@),
        body_span: b.body.location,
    }
}

/// The views of a sequence of branches, in order.
pub open spec fn branches_view(s: Seq<ConditionBranch>) -> Seq<BranchView>
    decreases s,
{
    if s.len() == 0 {
        Seq::empty()
    } else {
        branches_view(s.drop_last()).push(branch_view(s.last()))
    }
}

/// The views of a sequence of located chunks, in order, spans kept.
pub open spec fn chunks_view(s: Seq<Located<Node>>) -> Seq<(ChunkView, Span)>
    decreases s,
{
    if s.len() == 0 {
        Seq::empty()
    } else {
        chunks_view(s.drop_last()).push((chunk_view(s.last().inner), s.last().location))
    }
}

/// Each position of a chunk-sequence view holds the view of the chunk at
/// that position, with its span.
pub proof fn lemma_chunks_view_index(s: Seq<Located<Node>>)
    ensures
        chunks_view(s).len() == s.len(),
        forall|j: int|
            0 <= j < s.len() ==> chunks_view(s)[j] == (chunk_view(#[trigger] s[j].inner), s[j].location),
    decreases s.len(),
{
    if s.len() > 0 {
        lemma_chunks_view_index(s.drop_last());
        assert forall|j: int|
            0 <= j < s.len() implies chunks_view(s)[j] == (chunk_view(#[trigger] s[j].inner), s[j].location) by {
            if j < s.len() - 1 {
                assert(chunks_view(s)[j] == chunks_view(s.drop_last())[j]);
                assert(s.drop_last()[j] == s[j]);
            }
        }
    }
}

/// Each position of a branch-sequence view holds the view of the branch
/// at that position.
pub proof fn lemma_branches_view_index(s: Seq<ConditionBranch>)
    ensures
        branches_view(s).len() == s.len(),
        forall|j: int| 0 <= j < s.len() ==> branches_view(s)[j] == branch_view(#[trigger] s[j]),
    decreases s.len(),
{
    if s.len() > 0 {
        lemma_branches_view_index(s.drop_last());
        assert forall|j: int|
            0 <= j < s.len() implies branches_view(s)[j] == branch_view(#[trigger] s[j]) by {
            if j < s.len() - 1 {
                assert(branches_view(s)[j] == branches_view(s.drop_last())[j]);
                assert(s.drop_last()[j] == s[j]);
            }
        }
    }
}

/// The spec-level image of a preprocessing error.
pub enum PreprocessorErrorView {
    FileNotFound(Seq<char>),
    IncludeCycle(Seq<char>),
    UndefinedConditionalName(Seq<char>),
    MalformedDirective(Span),
    UserError(Seq<char>, Span),
}

impl View for PreprocessorError {
    type V = PreprocessorErrorView;

    open spec fn view(&self) -> PreprocessorErrorView {
        match self {
            PreprocessorError::FileNotFound { path } => PreprocessorErrorView::FileNotFound(path@),
            PreprocessorError::IncludeCycle { path } => PreprocessorErrorView::IncludeCycle(path@),
            PreprocessorError::UndefinedConditionalName { name } =>
                PreprocessorErrorView::UndefinedConditionalName(name@),
            PreprocessorError::MalformedDirective { span } =>
                PreprocessorErrorView::MalformedDirective(*span),
            PreprocessorError::UserError { msg, span } => PreprocessorErrorView::UserError(
                msg@,
                *span,
            ),
        }
    }
}

// ------------------------------------------------------------------
// Path handling.
// ------------------------------------------------------------------

/// The position of the last `/` in `s` at or before `i`, or a negative
/// number when there is none.
pub open spec fn spec_last_slash(s: Seq<char>, i: int) -> int
    decreases i + 1,
{
    if i < 0 {
        -1
    } else if char_at(s, i as nat) == '/' {
        i
    } else {
        spec_last_slash(s, i - 1)
    }
}

/// The directory part of a path: everything before the last `/`, empty
/// when there is none.
pub open spec fn spec_dir_of(s: Seq<char>) -> Seq<char> {
    let j = spec_last_slash(s, s.len() - 1);
    if j >= 0 {
        s.subrange(0, j)
    } else {
        Seq::empty()
    }
}

/// `p` resolved against directory `dir`: `p` itself when `dir` is empty,
/// else the two joined with a `/`.
pub open spec fn spec_join(dir: Seq<char>, p: Seq<char>) -> Seq<char> {
    if dir.len() == 0 {
        p
    } else {
        dir + seq!['/'] + p
    }
}

/// The directory part of a path.
#[verifier::loop_isolation(false)]
pub fn dir_of(path: &str) -> (r: String)
    ensures
        r@ == spec_dir_of(path@),
{
    let chars = str_to_chars(path);
    let mut cut: usize = 0;
    let mut found = false;
    let mut i: usize = 0;
    while i < chars.len()
        invariant
            i <= chars@.len(),
            chars@ == path@,
            found ==> cut < i && spec_last_slash(path@, i as int - 1) == cut,
            !found ==> spec_last_slash(path@, i as int - 1) == -1,
        decreases chars@.len() - i,
    {
        if chars[i] == '/' {
            cut = i;
            found = true;
        }
        i = i + 1;
    }
    let end = if found {
        cut
    } else {
        0
    };
    proof {
        if !found {
            assert(path@.subrange(0, 0) =~= Seq::<char>::empty());
        }
    }
    slice_string(&chars, 0, end)
}

/// `path` resolved against directory `dir`.
pub fn join_path(dir: &str, path: &str) -> (r: String)
    ensures
        r@ == spec_join(dir@, path@),
{
    if dir.unicode_len() == 0 {
        str_to_string(path)
    } else {
        let mut out = str_to_chars(dir);
        out.push('/');
        let rest = str_to_chars(path);
        let mut i: usize = 0;
        while i < rest.len()
            invariant
                i <= rest@.len(),
                rest@ == path@,
                out@ == dir@ + seq!['/'] + path@.subrange(0, i as int),
            decreases rest@.len() - i,
        {
            out.push(rest[i]);
            proof {
                assert(out@ =~= dir@ + seq!['/'] + path@.subrange(0, i as int + 1));
            }
            i = i + 1;
        }
        proof {
            assert(dir@ + seq!['/'] + path@.subrange(0, path@.len() as int) =~= dir@ + seq!['/']
                + path@);
        }
        chars_to_string(&out)
    }
}

/// Copy the scalars of `s` between `from` and `to` into an owned string.
fn slice_string(s: &Vec<char>, from: usize, to: usize) -> (r: String)
    requires
        from <= to <= s@.len(),
    ensures
        r@ == s@.subrange(from as int, to as int),
{
    let mut text: Vec<char> = Vec::new();
    let mut i: usize = from;
    while i < to
        invariant
            from <= i <= to <= s@.len(),
            text@ == s@.subrange(from as int, i as int),
        decreases to - i,
    {
        text.push(s[i]);
        proof {
            assert(text@ =~= s@.subrange(from as int, i as int + 1));
        }
        i = i + 1;
    }
    chars_to_string(&text)
}

// ------------------------------------------------------------------
// The chunk grammar.
// ------------------------------------------------------------------
//
// Every executable parser below returns exactly what its spec-level twin
// says, in both directions: the parsed chunk's view with its relative
// spans on success, and a refusal exactly where the twin refuses.

/// Whether the characters of `kw` stand at `pos`: the position one past
/// them, or none.
pub open spec fn spec_match_chars(s: Seq<char>, pos: int, kw: Seq<char>) -> Option<int> {
    if 0 <= pos && pos + kw.len() <= s.len() && s.subrange(pos, pos + kw.len()) == kw {
        Some(pos + kw.len())
    } else {
        None
    }
}

fn match_chars(s: &Vec<char>, pos: usize, kw: &Vec<char>) -> (r: Option<usize>)
    requires
        pos <= s@.len(),
    ensures
        r matches Some(e) ==> spec_match_chars(s@, pos as int, kw@) == Some(e as int) && pos <= e
            <= s@.len(),
        r is None ==> spec_match_chars(s@, pos as int, kw@) is None,
{
    if kw.len() > s.len() - pos {
        return None;
    }
    let mut i: usize = 0;
    while i < kw.len()
        invariant
            i <= kw@.len(),
            pos + kw@.len() <= s@.len(),
            pos + kw@.len() <= usize::MAX,
            forall|j: int| 0 <= j < i ==> s@[pos + j] == kw@[j],
        decreases kw@.len() - i,
    {
        if s[pos + i] != kw[i] {
            proof {
                assert(s@.subrange(pos as int, pos + kw@.len())[i as int] == s@[pos + i]);
            }
            return None;
        }
        i = i + 1;
    }
    proof {
        assert(s@.subrange(pos as int, pos + kw@.len()) =~= kw@);
    }
    Some(pos + kw.len())
}

fn match_str(s: &Vec<char>, pos: usize, kw: &str) -> (r: Option<usize>)
    requires
        pos <= s@.len(),
    ensures
        r matches Some(e) ==> spec_match_chars(s@, pos as int, kw@) == Some(e as int) && pos <= e
            <= s@.len(),
        r is None ==> spec_match_chars(s@, pos as int, kw@) is None,
{
    let k = str_to_chars(kw);
    match_chars(s, pos, &k)
}

/// Whether `pos` sits at a line break or at the end.
pub open spec fn spec_at_line_end(s: Seq<char>, pos: int) -> bool {
    pos >= s.len() || char_at(s, pos as nat) == '\n' || char_at(s, pos as nat) == '\r'
}

fn at_line_end(s: &Vec<char>, pos: usize) -> (r: bool)
    requires
        pos <= s@.len(),
    ensures
        r == spec_at_line_end(s@, pos as int),
{
    pos >= s.len() || s[pos] == '\n' || s[pos] == '\r'
}

/// The position after trailing spaces and an optional `//` comment: just
/// before the line break, when the line is well formed there.
pub open spec fn spec_eat_eol(s: Seq<char>, pos: int) -> int {
    let p = crate::literal::spec_skip_spaces(s, pos);
    if p < s.len() && p + 1 < s.len() && char_at(s, p as nat) == '/' && char_at(s, (p + 1) as nat)
        == '/' {
        crate::line::spec_comment_end(s, p + 2)
    } else {
        p
    }
}

fn eat_end_of_line(s: &Vec<char>, pos: usize) -> (r: usize)
    requires
        pos <= s@.len(),
    ensures
        r == spec_eat_eol(s@, pos as int),
        pos <= r <= s@.len(),
{
    let p = crate::literal::skip_spaces(s, pos);
    if p < s.len() && p + 1 < s.len() && s[p] == '/' && s[p + 1] == '/' {
        crate::line::comment_end(s, p + 2)
    } else {
        p
    }
}

/// The end of the argument token starting at `pos`: scalars up to a
/// space, tab, line break or slash.
pub open spec fn spec_token_end(s: Seq<char>, pos: int) -> int
    decreases s.len() - pos,
{
    if 0 <= pos < s.len() && char_at(s, pos as nat) != ' ' && char_at(s, pos as nat) != '\t'
        && char_at(s, pos as nat) != '\r' && char_at(s, pos as nat) != '\n' && char_at(
        s,
        pos as nat,
    ) != '/' {
        spec_token_end(s, pos + 1)
    } else {
        pos
    }
}

fn token_end(s: &Vec<char>, pos: usize) -> (r: usize)
    requires
        pos <= s@.len(),
    ensures
        r == spec_token_end(s@, pos as int),
        pos <= r <= s@.len(),
    decreases s@.len() - pos,
{
    if pos < s.len() && s[pos] != ' ' && s[pos] != '\t' && s[pos] != '\r' && s[pos] != '\n'
        && s[pos] != '/' {
        token_end(s, pos + 1)
    } else {
        pos
    }
}

/// Where the argument starting at `pos` ends: tokens and the spaces
/// between them are consumed until a line break, a `//` comment or the
/// end; trailing whitespace is left out. A lone slash belongs to the
/// argument.
pub open spec fn spec_arg_end(s: Seq<char>, pos: int, fuel: nat) -> int
    decreases fuel,
{
    if fuel == 0 {
        pos
    } else {
        let p = crate::literal::spec_skip_spaces(s, pos);
        if spec_at_line_end(s, p) {
            pos
        } else if p < s.len() && p + 1 < s.len() && char_at(s, p as nat) == '/' && char_at(
            s,
            (p + 1) as nat,
        ) == '/' {
            pos
        } else {
            let q0 = spec_token_end(s, p);
            let q = if q0 == p {
                p + 1
            } else {
                q0
            };
            spec_arg_end(s, q, (fuel - 1) as nat)
        }
    }
}

fn arg_end(s: &Vec<char>, pos: usize, fuel: u64) -> (r: usize)
    requires
        pos <= s@.len(),
    ensures
        r == spec_arg_end(s@, pos as int, fuel as nat),
        pos <= r <= s@.len(),
    decreases fuel,
{
    if fuel == 0 {
        return pos;
    }
    let p = crate::literal::skip_spaces(s, pos);
    if at_line_end(s, p) {
        pos
    } else if p < s.len() && p + 1 < s.len() && s[p] == '/' && s[p + 1] == '/' {
        pos
    } else {
        let q0 = token_end(s, p);
        let q = if q0 == p {
            p + 1
        } else {
            q0
        };
        arg_end(s, q, fuel - 1)
    }
}

/// The argument of a directive at `pos`: its text — the slice from `pos`
/// to where [`spec_arg_end`] stops, so before trailing whitespace, any
/// `//` comment and the line break — or none exactly when that slice is
/// empty.
pub open spec fn spec_parse_directive_argument(s: Seq<char>, pos: int) -> Option<(Seq<char>, int)> {
    let e = spec_arg_end(s, pos, crate::line::list_fuel(s.len() - pos));
    if e == pos {
        None
    } else {
        Some((s.subrange(pos, e), e))
    }
}

/// Parse a directive argument.
pub fn parse_directive_argument(s: &Vec<char>, pos: usize) -> (r: Option<(String, usize)>)
    requires
        pos <= s@.len(),
    ensures
        r matches Some(t) ==> spec_parse_directive_argument(s@, pos as int) == Some(
            (t.0@, t.1 as int),
        ) && pos < t.1 <= s@.len(),
        r is None ==> spec_parse_directive_argument(s@, pos as int) is None,
{
    let fuel = crate::line::list_fuel_at(s.len(), pos);
    let e = arg_end(s, pos, fuel);
    if e == pos {
        None
    } else {
        Some((slice_string(s, pos, e), e))
    }
}

/// A `#define` chunk at `pos`: the key, an optional body, their spans
/// relative to `pos`; trailing spaces and a `//` comment are allowed.
pub open spec fn spec_parse_definition(s: Seq<char>, pos: int) -> Option<(ChunkView, int)> {
    if !(0 <= pos < s.len() && char_at(s, pos as nat) == '#') {
        None
    } else {
        let p0 = crate::literal::spec_skip_spaces(s, pos + 1);
        match spec_match_chars(s, p0, "define"@) {
            Some(p) => {
                let q = crate::literal::spec_skip_spaces(s, p);
                if q == p {
                    None
                } else {
                    match crate::literal::spec_parse_identifier(s, q) {
                        Some(kt) => {
                            let a = crate::literal::spec_skip_spaces(s, kt.1);
                            let content: Option<(Seq<char>, Span)> = if a > kt.1
                                && spec_parse_directive_argument(s, a) is Some {
                                let ct = spec_parse_directive_argument(s, a)->Some_0;
                                Some(
                                    (
                                        ct.0,
                                        Span {
                                            offset: (a - pos) as usize,
                                            length: (ct.1 - a) as usize,
                                        },
                                    ),
                                )
                            } else {
                                None
                            };
                            let cend: int = if a > kt.1 && spec_parse_directive_argument(s, a)
                                is Some {
                                spec_parse_directive_argument(s, a)->Some_0.1
                            } else {
                                kt.1
                            };
                            let end = spec_eat_eol(s, cend);
                            if spec_at_line_end(s, end) {
                                Some(
                                    (
                                        ChunkView::Definition {
                                            key: kt.0,
                                            key_span: Span {
                                                offset: (q - pos) as usize,
                                                length: (kt.1 - q) as usize,
                                            },
                                            content,
                                        },
                                        end,
                                    ),
                                )
                            } else {
                                None
                            }
                        },
                        None => None,
                    }
                }
            },
            None => None,
        }
    }
}

/// Parse a `#define` chunk at `pos`.
pub fn parse_definition_at(s: &Vec<char>, pos: usize) -> (r: Option<(Node, usize)>)
    requires
        pos <= s@.len(),
    ensures
        r matches Some(t) ==> spec_parse_definition(s@, pos as int) == Some(
            (chunk_view(t.0), t.1 as int),
        ) && pos < t.1 <= s@.len(),
        r is None ==> spec_parse_definition(s@, pos as int) is None,
{
    if !(pos < s.len() && s[pos] == '#') {
        return None;
    }
    let p0 = crate::literal::skip_spaces(s, pos + 1);
    let p = match match_str(s, p0, "define") {
        Some(p) => p,
        None => {
            return None;
        },
    };
    let q = crate::literal::skip_spaces(s, p);
    if q == p {
        return None;
    }
    let (key, kend) = match crate::literal::parse_identifier(s, q) {
        Some(t) => t,
        None => {
            return None;
        },
    };
    let key = Located { inner: key, location: Span { offset: q - pos, length: kend - q } };
    let a = crate::literal::skip_spaces(s, kend);
    let (content, cend) = if a > kend {
        match parse_directive_argument(s, a) {
            Some((text, e)) => (
                Some(Located { inner: text, location: Span { offset: a - pos, length: e - a } }),
                e,
            ),
            None => (None, kend),
        }
    } else {
        (None, kend)
    };
    let end = eat_end_of_line(s, cend);
    if at_line_end(s, end) {
        Some((Node::Definition { key, content }, end))
    } else {
        None
    }
}

/// An `#undefine` chunk at `pos`: the key and its span.
pub open spec fn spec_parse_undefine(s: Seq<char>, pos: int) -> Option<(ChunkView, int)> {
    if !(0 <= pos < s.len() && char_at(s, pos as nat) == '#') {
        None
    } else {
        let p0 = crate::literal::spec_skip_spaces(s, pos + 1);
        match spec_match_chars(s, p0, "undefine"@) {
            Some(p) => {
                let q = crate::literal::spec_skip_spaces(s, p);
                if q == p {
                    None
                } else {
                    match crate::literal::spec_parse_identifier(s, q) {
                        Some(kt) => {
                            let end = spec_eat_eol(s, kt.1);
                            if spec_at_line_end(s, end) {
                                Some(
                                    (
                                        ChunkView::Undefine {
                                            key: kt.0,
                                            span: Span {
                                                offset: (q - pos) as usize,
                                                length: (kt.1 - q) as usize,
                                            },
                                        },
                                        end,
                                    ),
                                )
                            } else {
                                None
                            }
                        },
                        None => None,
                    }
                }
            },
            None => None,
        }
    }
}

/// Parse an `#undefine` chunk at `pos`.
pub fn parse_undefine_at(s: &Vec<char>, pos: usize) -> (r: Option<(Node, usize)>)
    requires
        pos <= s@.len(),
    ensures
        r matches Some(t) ==> spec_parse_undefine(s@, pos as int) == Some(
            (chunk_view(t.0), t.1 as int),
        ) && pos < t.1 <= s@.len(),
        r is None ==> spec_parse_undefine(s@, pos as int) is None,
{
    if !(pos < s.len() && s[pos] == '#') {
        return None;
    }
    let p0 = crate::literal::skip_spaces(s, pos + 1);
    let p = match match_str(s, p0, "undefine") {
        Some(p) => p,
        None => {
            return None;
        },
    };
    let q = crate::literal::skip_spaces(s, p);
    if q == p {
        return None;
    }
    let (key, kend) = match crate::literal::parse_identifier(s, q) {
        Some(t) => t,
        None => {
            return None;
        },
    };
    let key = Located { inner: key, location: Span { offset: q - pos, length: kend - q } };
    let end = eat_end_of_line(s, kend);
    if at_line_end(s, end) {
        Some((Node::Undefine { key }, end))
    } else {
        None
    }
}

/// The keyword of the inclusion directive.
pub open spec fn spec_inclusion_keyword() -> Seq<char> {
    seq!['i', 'n', 'c', 'l', 'u', 'd', 'e']
}

/// An inclusion chunk at `pos`: the unescaped path; its span covers the
/// whole quoted literal.
pub open spec fn spec_parse_inclusion(s: Seq<char>, pos: int) -> Option<(ChunkView, int)> {
    if !(0 <= pos < s.len() && char_at(s, pos as nat) == '#') {
        None
    } else {
        let p0 = crate::literal::spec_skip_spaces(s, pos + 1);
        match spec_match_chars(s, p0, spec_inclusion_keyword()) {
            Some(p) => {
                let q = crate::literal::spec_skip_spaces(s, p);
                if q == p {
                    None
                } else {
                    match crate::literal::spec_parse_string_literal(s, q) {
                        Some(lt) => {
                            let end = spec_eat_eol(s, lt.1);
                            if spec_at_line_end(s, end) {
                                Some(
                                    (
                                        ChunkView::Inclusion {
                                            path: lt.0,
                                            span: Span {
                                                offset: (q - pos) as usize,
                                                length: (lt.1 - q) as usize,
                                            },
                                        },
                                        end,
                                    ),
                                )
                            } else {
                                None
                            }
                        },
                        None => None,
                    }
                }
            },
            None => None,
        }
    }
}

/// Parse an inclusion chunk at `pos`.
pub fn parse_inclusion_at(s: &Vec<char>, pos: usize) -> (r: Option<(Node, usize)>)
    requires
        pos <= s@.len(),
    ensures
        r matches Some(t) ==> spec_parse_inclusion(s@, pos as int) == Some(
            (chunk_view(t.0), t.1 as int),
        ) && pos < t.1 <= s@.len(),
        r is None ==> spec_parse_inclusion(s@, pos as int) is None,
{
    if !(pos < s.len() && s[pos] == '#') {
        return None;
    }
    let p0 = crate::literal::skip_spaces(s, pos + 1);
    let kw: Vec<char> = vec!['i', 'n', 'c', 'l', 'u', 'd', 'e'];
    proof {
        assert(kw@ =~= spec_inclusion_keyword());
    }
    let p = match match_chars(s, p0, &kw) {
        Some(p) => p,
        None => {
            return None;
        },
    };
    let q = crate::literal::skip_spaces(s, p);
    if q == p {
        return None;
    }
    let (path, lend) = match crate::literal::parse_string_literal(s, q) {
        Some(t) => t,
        None => {
            return None;
        },
    };
    let path = Located { inner: path, location: Span { offset: q - pos, length: lend - q } };
    let end = eat_end_of_line(s, lend);
    if at_line_end(s, end) {
        Some((Node::Inclusion { path }, end))
    } else {
        None
    }
}

/// An `#error` chunk at `pos`: the unescaped message; its span covers
/// the whole quoted literal.
pub open spec fn spec_parse_error(s: Seq<char>, pos: int) -> Option<(ChunkView, int)> {
    if !(0 <= pos < s.len() && char_at(s, pos as nat) == '#') {
        None
    } else {
        let p0 = crate::literal::spec_skip_spaces(s, pos + 1);
        match spec_match_chars(s, p0, "error"@) {
            Some(p) => {
                let q = crate::literal::spec_skip_spaces(s, p);
                if q == p {
                    None
                } else {
                    match crate::literal::spec_parse_string_literal(s, q) {
                        Some(lt) => {
                            let end = spec_eat_eol(s, lt.1);
                            if spec_at_line_end(s, end) {
                                Some(
                                    (
                                        ChunkView::Error {
                                            message: lt.0,
                                            span: Span {
                                                offset: (q - pos) as usize,
                                                length: (lt.1 - q) as usize,
                                            },
                                        },
                                        end,
                                    ),
                                )
                            } else {
                                None
                            }
                        },
                        None => None,
                    }
                }
            },
            None => None,
        }
    }
}

/// Parse an `#error` chunk at `pos`.
pub fn parse_error_at(s: &Vec<char>, pos: usize) -> (r: Option<(Node, usize)>)
    requires
        pos <= s@.len(),
    ensures
        r matches Some(t) ==> spec_parse_error(s@, pos as int) == Some(
            (chunk_view(t.0), t.1 as int),
        ) && pos < t.1 <= s@.len(),
        r is None ==> spec_parse_error(s@, pos as int) is None,
{
    if !(pos < s.len() && s[pos] == '#') {
        return None;
    }
    let p0 = crate::literal::skip_spaces(s, pos + 1);
    let p = match match_str(s, p0, "error") {
        Some(p) => p,
        None => {
            return None;
        },
    };
    let q = crate::literal::skip_spaces(s, p);
    if q == p {
        return None;
    }
    let (message, lend) = match crate::literal::parse_string_literal(s, q) {
        Some(t) => t,
        None => {
            return None;
        },
    };
    let message = Located { inner: message, location: Span { offset: q - pos, length: lend - q } };
    let end = eat_end_of_line(s, lend);
    if at_line_end(s, end) {
        Some((Node::Error { message }, end))
    } else {
        None
    }
}

/// A raw chunk at `pos`: the line itself, verbatim, up to the line break
/// or the end; a line starting with `#` is refused.
pub open spec fn spec_parse_raw(s: Seq<char>, pos: int) -> Option<(ChunkView, int)> {
    if 0 <= pos < s.len() && char_at(s, pos as nat) == '#' {
        None
    } else {
        let e = crate::line::spec_comment_end(s, pos);
        Some((ChunkView::Raw(s.subrange(pos, e)), e))
    }
}

/// Parse a raw chunk at `pos`.
pub fn parse_raw_at(s: &Vec<char>, pos: usize) -> (r: Option<(Node, usize)>)
    requires
        pos <= s@.len(),
    ensures
        r matches Some(t) ==> spec_parse_raw(s@, pos as int) == Some(
            (chunk_view(t.0), t.1 as int),
        ) && pos <= t.1 <= s@.len(),
        r is None ==> spec_parse_raw(s@, pos as int) is None,
{
    if pos < s.len() && s[pos] == '#' {
        return None;
    }
    let q = crate::line::comment_end(s, pos);
    Some((Node::Raw { content: slice_string(s, pos, q) }, q))
}

/// One chunk at `pos`: the directives tried in order, a raw line last.
pub open spec fn spec_parse_chunk(s: Seq<char>, pos: int, fuel: nat) -> Option<(ChunkView, int)>
    decreases fuel, 0int,
{
    if fuel == 0 {
        None
    } else if spec_parse_definition(s, pos) is Some {
        spec_parse_definition(s, pos)
    } else if spec_parse_undefine(s, pos) is Some {
        spec_parse_undefine(s, pos)
    } else if spec_parse_inclusion(s, pos) is Some {
        spec_parse_inclusion(s, pos)
    } else if spec_parse_condition(s, pos, (fuel - 1) as nat) is Some {
        spec_parse_condition(s, pos, (fuel - 1) as nat)
    } else if spec_parse_error(s, pos) is Some {
        spec_parse_error(s, pos)
    } else {
        spec_parse_raw(s, pos)
    }
}

/// Parse one chunk at `pos`.
pub fn parse_chunk_at(s: &Vec<char>, pos: usize, fuel: u64) -> (r: Option<(Node, usize)>)
    requires
        pos <= s@.len(),
    ensures
        r matches Some(t) ==> spec_parse_chunk(s@, pos as int, fuel as nat) == Some(
            (chunk_view(t.0), t.1 as int),
        ) && pos <= t.1 <= s@.len(),
        r is None ==> spec_parse_chunk(s@, pos as int, fuel as nat) is None,
    decreases fuel, 0int,
{
    if fuel == 0 {
        return None;
    }
    match parse_definition_at(s, pos) {
        Some(t) => Some(t),
        None => match parse_undefine_at(s, pos) {
            Some(t) => Some(t),
            None => match parse_inclusion_at(s, pos) {
                Some(t) => Some(t),
                None => match parse_condition_at(s, pos, fuel - 1) {
                    Some(t) => Some(t),
                    None => match parse_error_at(s, pos) {
                        Some(t) => Some(t),
                        None => parse_raw_at(s, pos),
                    },
                },
            },
        },
    }
}

/// Chunks from `pos` on, appended to `acc`: one chunk per line, line
/// breaks between them, stopping where no chunk parses or no line break
/// follows; spans are relative to `base`.
pub open spec fn spec_parse_children(
    s: Seq<char>,
    pos: int,
    base: int,
    acc: Seq<(ChunkView, Span)>,
    fuel: nat,
) -> (Seq<(ChunkView, Span)>, int)
    decreases fuel, 1int,
{
    if fuel == 0 {
        (acc, pos)
    } else {
        match spec_parse_chunk(s, pos, (fuel - 1) as nat) {
            Some(t) => {
                let acc2 = acc.push(
                    (t.0, Span { offset: (pos - base) as usize, length: (t.1 - pos) as usize }),
                );
                if t.1 < s.len() && char_at(s, t.1 as nat) == '\n' {
                    spec_parse_children(s, t.1 + 1, base, acc2, (fuel - 1) as nat)
                } else if t.1 < s.len() && t.1 + 1 < s.len() && char_at(s, t.1 as nat) == '\r'
                    && char_at(s, (t.1 + 1) as nat) == '\n' {
                    spec_parse_children(s, t.1 + 2, base, acc2, (fuel - 1) as nat)
                } else {
                    (acc2, t.1)
                }
            },
            None => (acc, pos),
        }
    }
}

/// Parse chunks from `pos` on, appended to `acc`.
pub fn parse_children_at(s: &Vec<char>, pos: usize, base: usize, acc: Children, fuel: u64) -> (r: (
    Children,
    usize,
))
    requires
        base <= pos <= s@.len(),
    ensures
        (chunks_view(r.0@), r.1 as int) == spec_parse_children(
            s@,
            pos as int,
            base as int,
            chunks_view(acc@),
            fuel as nat,
        ),
        pos <= r.1 <= s@.len(),
    decreases fuel, 1int,
{
    if fuel == 0 {
        return (acc, pos);
    }
    match parse_chunk_at(s, pos, fuel - 1) {
        Some((node, end)) => {
            let ghost prior = acc@;
            let mut acc = acc;
            acc.push(
                Located { inner: node, location: Span { offset: pos - base, length: end - pos } },
            );
            proof {
                assert(acc@.drop_last() =~= prior);
                assert(chunks_view(acc@) == chunks_view(prior).push(
                    (chunk_view(acc@.last().inner), acc@.last().location),
                ));
            }
            if end < s.len() && s[end] == '\n' {
                parse_children_at(s, end + 1, base, acc, fuel - 1)
            } else if end < s.len() && end + 1 < s.len() && s[end] == '\r' && s[end + 1] == '\n' {
                parse_children_at(s, end + 2, base, acc, fuel - 1)
            } else {
                (acc, end)
            }
        },
        None => (acc, pos),
    }
}

/// The further branches of a conditional block after the first, starting
/// at a `#` line: more `#elif` branches, an optional `#else` fallback,
/// and the mandatory closing directive, whose end is returned. Branch
/// conditions and bodies carry spans relative to `pos`, the start of the
/// block.
pub open spec fn spec_parse_condition_rest(
    s: Seq<char>,
    pos: int,
    cursor: int,
    branches: Seq<BranchView>,
    fuel: nat,
) -> Option<((Seq<BranchView>, Option<(Seq<(ChunkView, Span)>, Span)>), int)>
    decreases fuel, 3int,
{
    if fuel == 0 {
        None
    } else if !(0 <= cursor < s.len() && char_at(s, cursor as nat) == '#') {
        None
    } else {
        let p = crate::literal::spec_skip_spaces(s, cursor + 1);
        if spec_match_chars(s, p, "endif"@) is Some {
            let end = spec_eat_eol(s, spec_match_chars(s, p, "endif"@)->Some_0);
            if spec_at_line_end(s, end) {
                Some(((branches, None), end))
            } else {
                None
            }
        } else if spec_match_chars(s, p, "elif"@) is Some {
            let p2 = spec_match_chars(s, p, "elif"@)->Some_0;
            let q = crate::literal::spec_skip_spaces(s, p2);
            if q == p2 {
                None
            } else {
                match spec_parse_directive_argument(s, q) {
                    Some(ct) => {
                        let e = spec_eat_eol(s, ct.1);
                        if e < s.len() && char_at(s, e as nat) == '\n' {
                            spec_parse_condition_branch(s, pos, e + 1, branches, ct, q, fuel)
                        } else if e < s.len() && e + 1 < s.len() && char_at(s, e as nat) == '\r'
                            && char_at(s, (e + 1) as nat) == '\n' {
                            spec_parse_condition_branch(s, pos, e + 2, branches, ct, q, fuel)
                        } else {
                            None
                        }
                    },
                    None => None,
                }
            }
        } else if spec_match_chars(s, p, "else"@) is Some {
            let p2 = spec_match_chars(s, p, "else"@)->Some_0;
            let e = spec_eat_eol(s, p2);
            if e < s.len() && char_at(s, e as nat) == '\n' {
                spec_parse_condition_fallback(s, pos, e + 1, branches, fuel)
            } else if e < s.len() && e + 1 < s.len() && char_at(s, e as nat) == '\r' && char_at(
                s,
                (e + 1) as nat,
            ) == '\n' {
                spec_parse_condition_fallback(s, pos, e + 2, branches, fuel)
            } else {
                None
            }
        } else {
            None
        }
    }
}

/// One further branch: its body, and the rest of the block after it.
pub open spec fn spec_parse_condition_branch(
    s: Seq<char>,
    pos: int,
    body_start: int,
    branches: Seq<BranchView>,
    ct: (Seq<char>, int),
    q: int,
    fuel: nat,
) -> Option<((Seq<BranchView>, Option<(Seq<(ChunkView, Span)>, Span)>), int)>
    decreases fuel, 2int,
{
    if fuel == 0 {
        None
    } else {
        let br = spec_parse_children(s, body_start, body_start, Seq::empty(), (fuel - 1) as nat);
        let branch = BranchView {
            condition: ct.0,
            cond_span: Span { offset: (q - pos) as usize, length: (ct.1 - q) as usize },
            body: br.0,
            body_span: Span {
                offset: (body_start - pos) as usize,
                length: (br.1 - body_start) as usize,
            },
        };
        spec_parse_condition_rest(s, pos, br.1, branches.push(branch), (fuel - 1) as nat)
    }
}

/// The fallback body, and the closing directive after it.
pub open spec fn spec_parse_condition_fallback(
    s: Seq<char>,
    pos: int,
    body_start: int,
    branches: Seq<BranchView>,
    fuel: nat,
) -> Option<((Seq<BranchView>, Option<(Seq<(ChunkView, Span)>, Span)>), int)>
    decreases fuel, 2int,
{
    if fuel == 0 {
        None
    } else {
        let br = spec_parse_children(s, body_start, body_start, Seq::empty(), (fuel - 1) as nat);
        let fb = (
            br.0,
            Span {
                offset: (body_start - pos) as usize,
                length: (br.1 - body_start) as usize,
            },
        );
        if !(0 <= br.1 < s.len() && char_at(s, br.1 as nat) == '#') {
            None
        } else {
            let p = crate::literal::spec_skip_spaces(s, br.1 + 1);
            match spec_match_chars(s, p, "endif"@) {
                Some(p2) => {
                    let end = spec_eat_eol(s, p2);
                    if spec_at_line_end(s, end) {
                        Some(((branches, Some(fb)), end))
                    } else {
                        None
                    }
                },
                None => None,
            }
        }
    }
}

/// A conditional block at `pos`: the opening branch, the further
/// branches in source order, the optional fallback, the mandatory
/// closing directive.
pub open spec fn spec_parse_condition(s: Seq<char>, pos: int, fuel: nat) -> Option<
    (ChunkView, int),
>
    decreases fuel, 4int,
{
    if fuel == 0 {
        None
    } else if !(0 <= pos < s.len() && char_at(s, pos as nat) == '#') {
        None
    } else {
        let p0 = crate::literal::spec_skip_spaces(s, pos + 1);
        match spec_match_chars(s, p0, "if"@) {
            Some(p) => {
                let q = crate::literal::spec_skip_spaces(s, p);
                if q == p {
                    None
                } else {
                    match spec_parse_directive_argument(s, q) {
                        Some(ct) => {
                            let e = spec_eat_eol(s, ct.1);
                            let body_start: int = if e < s.len() && char_at(s, e as nat) == '\n' {
                                e + 1
                            } else if e < s.len() && e + 1 < s.len() && char_at(s, e as nat)
                                == '\r' && char_at(s, (e + 1) as nat) == '\n' {
                                e + 2
                            } else {
                                -1
                            };
                            if body_start < 0 {
                                None
                            } else {
                                let br = spec_parse_children(
                                    s,
                                    body_start,
                                    body_start,
                                    Seq::empty(),
                                    (fuel - 1) as nat,
                                );
                                let branch = BranchView {
                                    condition: ct.0,
                                    cond_span: Span {
                                        offset: (q - pos) as usize,
                                        length: (ct.1 - q) as usize,
                                    },
                                    body: br.0,
                                    body_span: Span {
                                        offset: (body_start - pos) as usize,
                                        length: (br.1 - body_start) as usize,
                                    },
                                };
                                match spec_parse_condition_rest(
                                    s,
                                    pos,
                                    br.1,
                                    seq![branch],
                                    (fuel - 1) as nat,
                                ) {
                                    Some(t) => Some(
                                        (
                                            ChunkView::Condition {
                                                branches: t.0.0,
                                                fallback: t.0.1,
                                            },
                                            t.1,
                                        ),
                                    ),
                                    None => None,
                                }
                            }
                        },
                        None => None,
                    }
                }
            },
            None => None,
        }
    }
}

/// Parse the rest of a conditional block, from a `#` line on.
fn parse_condition_rest_at(
    s: &Vec<char>,
    pos: usize,
    cursor: usize,
    branches: Vec<ConditionBranch>,
    fuel: u64,
) -> (r: Option<(Vec<ConditionBranch>, Option<Located<Children>>, usize)>)
    requires
        pos <= cursor <= s@.len(),
        pos <= s@.len(),
    ensures
        r matches Some(t) ==> spec_parse_condition_rest(
            s@,
            pos as int,
            cursor as int,
            branches_view(branches@),
            fuel as nat,
        ) == Some(((branches_view(t.0@), fallback_view(t.1)), t.2 as int)) && cursor <= t.2
            <= s@.len(),
        r is None ==> spec_parse_condition_rest(
            s@,
            pos as int,
            cursor as int,
            branches_view(branches@),
            fuel as nat,
        ) is None,
    decreases fuel, 3int,
{
    if fuel == 0 {
        return None;
    }
    if !(cursor < s.len() && s[cursor] == '#') {
        return None;
    }
    let p = crate::literal::skip_spaces(s, cursor + 1);
    if let Some(p2) = match_str(s, p, "endif") {
        let end = eat_end_of_line(s, p2);
        if at_line_end(s, end) {
            Some((branches, None, end))
        } else {
            None
        }
    } else if let Some(p2) = match_str(s, p, "elif") {
        let q = crate::literal::skip_spaces(s, p2);
        if q == p2 {
            return None;
        }
        let (cond, cend) = match parse_directive_argument(s, q) {
            Some(t) => t,
            None => {
                return None;
            },
        };
        let e = eat_end_of_line(s, cend);
        let body_start = if e < s.len() && s[e] == '\n' {
            e + 1
        } else if e < s.len() && e + 1 < s.len() && s[e] == '\r' && s[e + 1] == '\n' {
            e + 2
        } else {
            return None;
        };
        let (body, bend) = parse_children_at(s, body_start, body_start, Vec::new(), fuel - 1);
        proof {
            assert(chunks_view(Seq::<Located<Node>>::empty()) =~= Seq::<(ChunkView, Span)>::empty());
        }
        let branch = ConditionBranch {
            condition: Located {
                inner: cond,
                location: Span { offset: q - pos, length: cend - q },
            },
            body: Located {
                inner: body,
                location: Span { offset: body_start - pos, length: bend - body_start },
            },
        };
        let ghost prior = branches@;
        let mut branches = branches;
        branches.push(branch);
        proof {
            assert(branches@.drop_last() =~= prior);
            assert(branches_view(branches@) == branches_view(prior).push(
                branch_view(branches@.last()),
            ));
        }
        parse_condition_rest_at(s, pos, bend, branches, fuel - 1)
    } else if let Some(p2) = match_str(s, p, "else") {
        let e = eat_end_of_line(s, p2);
        let body_start = if e < s.len() && s[e] == '\n' {
            e + 1
        } else if e < s.len() && e + 1 < s.len() && s[e] == '\r' && s[e + 1] == '\n' {
            e + 2
        } else {
            return None;
        };
        let (body, bend) = parse_children_at(s, body_start, body_start, Vec::new(), fuel - 1);
        proof {
            assert(chunks_view(Seq::<Located<Node>>::empty()) =~= Seq::<(ChunkView, Span)>::empty());
        }
        let fb = Located {
            inner: body,
            location: Span { offset: body_start - pos, length: bend - body_start },
        };
        if !(bend < s.len() && s[bend] == '#') {
            return None;
        }
        let p3 = crate::literal::skip_spaces(s, bend + 1);
        let p4 = match match_str(s, p3, "endif") {
            Some(p4) => p4,
            None => {
                return None;
            },
        };
        let end = eat_end_of_line(s, p4);
        if at_line_end(s, end) {
            Some((branches, Some(fb), end))
        } else {
            None
        }
    } else {
        None
    }
}

/// Parse a conditional block at `pos`.
pub fn parse_condition_at(s: &Vec<char>, pos: usize, fuel: u64) -> (r: Option<(Node, usize)>)
    requires
        pos <= s@.len(),
    ensures
        r matches Some(t) ==> spec_parse_condition(s@, pos as int, fuel as nat) == Some(
            (chunk_view(t.0), t.1 as int),
        ) && pos <= t.1 <= s@.len(),
        r is None ==> spec_parse_condition(s@, pos as int, fuel as nat) is None,
    decreases fuel, 4int,
{
    if fuel == 0 {
        return None;
    }
    if !(pos < s.len() && s[pos] == '#') {
        return None;
    }
    let p0 = crate::literal::skip_spaces(s, pos + 1);
    let p = match match_str(s, p0, "if") {
        Some(p) => p,
        None => {
            return None;
        },
    };
    let q = crate::literal::skip_spaces(s, p);
    if q == p {
        return None;
    }
    let (cond, cend) = match parse_directive_argument(s, q) {
        Some(t) => t,
        None => {
            return None;
        },
    };
    let e = eat_end_of_line(s, cend);
    let body_start = if e < s.len() && s[e] == '\n' {
        e + 1
    } else if e < s.len() && e + 1 < s.len() && s[e] == '\r' && s[e + 1] == '\n' {
        e + 2
    } else {
        return None;
    };
    let (body, bend) = parse_children_at(s, body_start, body_start, Vec::new(), fuel - 1);
    proof {
        assert(chunks_view(Seq::<Located<Node>>::empty()) =~= Seq::<(ChunkView, Span)>::empty());
    }
    let branch = ConditionBranch {
        condition: Located { inner: cond, location: Span { offset: q - pos, length: cend - q } },
        body: Located {
            inner: body,
            location: Span { offset: body_start - pos, length: bend - body_start },
        },
    };
    let mut branches: Vec<ConditionBranch> = Vec::new();
    branches.push(branch);
    proof {
        assert(branches@.drop_last() =~= Seq::<ConditionBranch>::empty());
        assert(branches_view(Seq::<ConditionBranch>::empty()) =~= Seq::<BranchView>::empty());
        assert(branches_view(branches@) =~= seq![branch_view(branches@.last())]);
    }
    match parse_condition_rest_at(s, pos, bend, branches, fuel - 1) {
        Some((branches, fallback, end)) => Some((Node::Condition { branches, fallback }, end)),
        None => None,
    }
}

/// Fuel that outlasts parsing a source of `n` scalars.
pub open spec fn parse_fuel(n: int) -> nat {
    if n < 0xffff_ffff_ffff_fff0 {
        (n + 2) as nat
    } else {
        n as nat
    }
}

/// The chunks of a whole source, and how far the parse reached.
pub open spec fn spec_parse(s: Seq<char>) -> (Seq<(ChunkView, Span)>, int) {
    spec_parse_children(s, 0, 0, Seq::empty(), parse_fuel(s.len() as int))
}

/// Parse a whole source into its chunks; the second component is how far
/// the parse reached.
pub fn parse(input: &str) -> (r: (Children, usize))
    ensures
        chunks_view(r.0@) == spec_parse(input@).0,
        r.1 as int == spec_parse(input@).1,
        r.1 <= input@.len(),
{
    let chars = str_to_chars(input);
    let n = chars.len() as u64;
    let fuel: u64 = if n < 0xffff_ffff_ffff_fff0 {
        n + 2
    } else {
        n
    };
    proof {
        assert(chunks_view(Seq::<Located<Node>>::empty()) =~= Seq::<(ChunkView, Span)>::empty());
    }
    parse_children_at(&chars, 0, 0, Vec::new(), fuel)
}

/// Parse a `#define` directive at the start of `input`.
pub fn parse_definition(input: &str) -> (r: Option<(Node, usize)>)
    ensures
        r matches Some(t) ==> spec_parse_definition(input@, 0) == Some(
            (chunk_view(t.0), t.1 as int),
        ) && t.1 <= input@.len(),
        r is None ==> spec_parse_definition(input@, 0) is None,
{
    let chars = str_to_chars(input);
    parse_definition_at(&chars, 0)
}

/// Parse an `#undefine` directive at the start of `input`.
pub fn parse_undefine(input: &str) -> (r: Option<(Node, usize)>)
    ensures
        r matches Some(t) ==> spec_parse_undefine(input@, 0) == Some(
            (chunk_view(t.0), t.1 as int),
        ) && t.1 <= input@.len(),
        r is None ==> spec_parse_undefine(input@, 0) is None,
{
    let chars = str_to_chars(input);
    parse_undefine_at(&chars, 0)
}

/// Parse an inclusion directive at the start of `input`.
pub fn parse_inclusion(input: &str) -> (r: Option<(Node, usize)>)
    ensures
        r matches Some(t) ==> spec_parse_inclusion(input@, 0) == Some(
            (chunk_view(t.0), t.1 as int),
        ) && t.1 <= input@.len(),
        r is None ==> spec_parse_inclusion(input@, 0) is None,
{
    let chars = str_to_chars(input);
    parse_inclusion_at(&chars, 0)
}

/// Parse an `#error` directive at the start of `input`.
pub fn parse_error(input: &str) -> (r: Option<(Node, usize)>)
    ensures
        r matches Some(t) ==> spec_parse_error(input@, 0) == Some((chunk_view(t.0), t.1 as int))
            && t.1 <= input@.len(),
        r is None ==> spec_parse_error(input@, 0) is None,
{
    let chars = str_to_chars(input);
    parse_error_at(&chars, 0)
}

/// Parse a raw line at the start of `input`.
pub fn parse_raw(input: &str) -> (r: Option<(Node, usize)>)
    ensures
        r matches Some(t) ==> spec_parse_raw(input@, 0) == Some((chunk_view(t.0), t.1 as int))
            && t.1 <= input@.len(),
        r is None ==> spec_parse_raw(input@, 0) is None,
{
    let chars = str_to_chars(input);
    parse_raw_at(&chars, 0)
}

/// Parse a conditional block at the start of `input`.
pub fn parse_condition(input: &str) -> (r: Option<(Node, usize)>)
    ensures
        r matches Some(t) ==> spec_parse_condition(input@, 0, parse_fuel(input@.len() as int))
            == Some((chunk_view(t.0), t.1 as int)) && t.1 <= input@.len(),
        r is None ==> spec_parse_condition(input@, 0, parse_fuel(input@.len() as int)) is None,
{
    let chars = str_to_chars(input);
    let n = chars.len() as u64;
    let fuel: u64 = if n < 0xffff_ffff_ffff_fff0 {
        n + 2
    } else {
        n
    };
    parse_condition_at(&chars, 0, fuel)
}


// ------------------------------------------------------------------
// The processing pass.
// ------------------------------------------------------------------
//
// The pass is modelled by [`spec_process_file`] and its companions over
// the chunk views, the filesystem entries and a spec-level definition
// table; every executable function below returns exactly what the model
// says.

/// The spec-level definition table.
pub type DefsV = Seq<(Seq<char>, Option<Seq<char>>)>;

/// The chunk of `chunks` at position `k`.
pub open spec fn pair_at(chunks: Seq<(ChunkView, Span)>, k: nat) -> (ChunkView, Span) {
    chunks[k as int]
}

/// The branch of `branches` at position `k`.
pub open spec fn branch_at(branches: Seq<BranchView>, k: nat) -> BranchView {
    branches[k as int]
}

/// Whole-word substitution from `pos` on: each identifier that the
/// definitions bind is replaced by its body, every other scalar is
/// copied.
pub open spec fn spec_subst(s: Seq<char>, defs: DefsV, pos: int, fuel: nat) -> Seq<char>
    decreases fuel,
{
    if fuel == 0 || !(0 <= pos < s.len()) {
        Seq::empty()
    } else {
        match crate::literal::spec_parse_identifier(s, pos) {
            Some(t) => (match defs_lookup_v(defs, t.0) {
                Some(Some(body)) => body,
                _ => t.0,
            }) + spec_subst(s, defs, t.1, (fuel - 1) as nat),
            None => seq![char_at(s, pos as nat)] + spec_subst(s, defs, pos + 1, (fuel - 1) as nat),
        }
    }
}

/// One raw line as emitted: substituted, with a line break after it.
pub open spec fn spec_emit_raw(content: Seq<char>, defs: DefsV) -> Seq<char> {
    spec_subst(content, defs, 0, crate::line::list_fuel(content.len() as int)) + seq!['\n']
}

/// Whether a branch condition holds: its text parsed completely as an
/// expression (trailing spaces allowed) and evaluated against the
/// definitions; non-zero takes the branch. A text that does not parse,
/// or an evaluation error other than an unresolved name, is a malformed
/// directive at the condition's span; an unresolved name reports itself.
pub open spec fn spec_cond_value(cond: Seq<char>, span: Span, defs: DefsV) -> Result<
    bool,
    PreprocessorErrorView,
> {
    match spec_parse_expression(cond) {
        Some(t) => if crate::literal::spec_skip_spaces(cond, t.1) == cond.len() {
            match spec_evaluate(t.0, env_of(defs), WidthHint::Full) {
                Ok(v) => Ok(v != 0),
                Err(crate::expression::EvalErrorView::UndefinedVariable(n)) => Err(
                    PreprocessorErrorView::UndefinedConditionalName(n),
                ),
                Err(_) => Err(PreprocessorErrorView::MalformedDirective(span)),
            }
        } else {
            Err(PreprocessorErrorView::MalformedDirective(span))
        },
        None => Err(PreprocessorErrorView::MalformedDirective(span)),
    }
}

/// Fuel that outlasts any chain of distinct files in `fs`.
pub open spec fn preprocess_fuel(n: int) -> nat {
    if n < u64::MAX {
        (n + 1) as nat
    } else {
        n as nat
    }
}

/// Process one file of the model: look the path up, parse it completely,
/// and process its chunks with the path on the stack. A path already on
/// the stack — an inclusion that closes a cycle — fails as a cycle, and
/// so does running out of depth, which a chain of distinct files never
/// causes.
pub open spec fn spec_process_file(
    fs: Seq<(String, String)>,
    path: Seq<char>,
    defs: DefsV,
    out: Seq<char>,
    stack: Seq<Seq<char>>,
    fuel: nat,
) -> Result<(DefsV, Seq<char>), PreprocessorErrorView>
    decreases fuel, 0int, 0int, 0int,
{
    if fuel == 0 {
        Err(PreprocessorErrorView::IncludeCycle(path))
    } else if stack.contains(path) {
        Err(PreprocessorErrorView::IncludeCycle(path))
    } else {
        match fs_lookup(fs, path) {
            None => Err(PreprocessorErrorView::FileNotFound(path)),
            Some(text) => {
                let parsed = spec_parse(text);
                if parsed.1 != text.len() {
                    Err(
                        PreprocessorErrorView::MalformedDirective(
                            Span { offset: parsed.1 as usize, length: 0 },
                        ),
                    )
                } else {
                    spec_process_chunks(
                        fs,
                        parsed.0,
                        0,
                        defs,
                        out,
                        stack.push(path),
                        spec_dir_of(path),
                        (fuel - 1) as nat,
                        parse_fuel(text.len() as int),
                    )
                }
            },
        }
    }
}

/// Process the chunks of one body, from position `k` on.
pub open spec fn spec_process_chunks(
    fs: Seq<(String, String)>,
    chunks: Seq<(ChunkView, Span)>,
    k: nat,
    defs: DefsV,
    out: Seq<char>,
    stack: Seq<Seq<char>>,
    dir: Seq<char>,
    fuel: nat,
    depth: nat,
) -> Result<(DefsV, Seq<char>), PreprocessorErrorView>
    decreases fuel, depth as int, 3int, chunks.len() - k,
{
    if k >= chunks.len() {
        Ok((defs, out))
    } else {
        match spec_process_node(fs, pair_at(chunks, k).0, defs, out, stack, dir, fuel, depth) {
            Ok(cfg) => spec_process_chunks(
                fs,
                chunks,
                k + 1,
                cfg.0,
                cfg.1,
                stack,
                dir,
                fuel,
                depth,
            ),
            Err(e) => Err(e),
        }
    }
}

/// Process one chunk: emit a raw line with substitution, bind or unbind
/// a definition, fail with the user's message, follow an inclusion, or
/// pick and process the branch of a conditional block.
pub open spec fn spec_process_node(
    fs: Seq<(String, String)>,
    n: ChunkView,
    defs: DefsV,
    out: Seq<char>,
    stack: Seq<Seq<char>>,
    dir: Seq<char>,
    fuel: nat,
    depth: nat,
) -> Result<(DefsV, Seq<char>), PreprocessorErrorView>
    decreases fuel, depth as int, 2int, 0int,
{
    match n {
        ChunkView::Raw(content) => Ok((defs, out + spec_emit_raw(content, defs))),
        ChunkView::Definition { key, key_span, content } => Ok(
            (
                defs.push(
                    (
                        key,
                        Some(
                            match content {
                                Some(c) => c.0,
                                None => Seq::empty(),
                            },
                        ),
                    ),
                ),
                out,
            ),
        ),
        ChunkView::Undefine { key, span } => Ok((defs.push((key, None)), out)),
        ChunkView::Error { message, span } => Err(PreprocessorErrorView::UserError(message, span)),
        ChunkView::Inclusion { path, span } => spec_process_file(
            fs,
            spec_join(dir, path),
            defs,
            out,
            stack,
            fuel,
        ),
        ChunkView::Condition { branches, fallback } => spec_process_branches(
            fs,
            branches,
            0,
            fallback,
            defs,
            out,
            stack,
            dir,
            fuel,
            depth,
        ),
    }
}

/// Pick the branch of a conditional block: the first whose condition
/// holds, the fallback when none does, nothing without a fallback.
pub open spec fn spec_process_branches(
    fs: Seq<(String, String)>,
    branches: Seq<BranchView>,
    k: nat,
    fallback: Option<(Seq<(ChunkView, Span)>, Span)>,
    defs: DefsV,
    out: Seq<char>,
    stack: Seq<Seq<char>>,
    dir: Seq<char>,
    fuel: nat,
    depth: nat,
) -> Result<(DefsV, Seq<char>), PreprocessorErrorView>
    decreases fuel, depth as int, 1int, branches.len() - k,
{
    if depth == 0 {
        // parsing bounds the nesting of conditions well below the depth
        // handed in, so this cannot be reached
        Err(PreprocessorErrorView::MalformedDirective(Span { offset: 0, length: 0 }))
    } else if k >= branches.len() {
        match fallback {
            Some(fb) => spec_process_chunks(
                fs,
                fb.0,
                0,
                defs,
                out,
                stack,
                dir,
                fuel,
                (depth - 1) as nat,
            ),
            None => Ok((defs, out)),
        }
    } else {
        let b = branch_at(branches, k);
        match spec_cond_value(b.condition, b.cond_span, defs) {
            Ok(true) => spec_process_chunks(
                fs,
                b.body,
                0,
                defs,
                out,
                stack,
                dir,
                fuel,
                (depth - 1) as nat,
            ),
            Ok(false) => spec_process_branches(
                fs,
                branches,
                k + 1,
                fallback,
                defs,
                out,
                stack,
                dir,
                fuel,
                depth,
            ),
            Err(e) => Err(e),
        }
    }
}

/// The meaning of preprocessing `path` against `fs`: the flattened text,
/// or the first error met. Definitions start empty and the stack of
/// files being processed starts empty.
pub open spec fn spec_preprocess(fs: Seq<(String, String)>, path: Seq<char>) -> Result<
    Seq<char>,
    PreprocessorErrorView,
> {
    match spec_process_file(
        fs,
        path,
        Seq::empty(),
        Seq::empty(),
        Seq::empty(),
        preprocess_fuel(fs.len() as int),
    ) {
        Ok(cfg) => Ok(cfg.1),
        Err(e) => Err(e),
    }
}

/// Whether `path` is on the stack of files being processed.
fn stack_contains(stack: &Vec<String>, path: &str) -> (r: bool)
    ensures
        r == crate::strings::strings_view(stack@).contains(path@),
{
    proof {
        crate::strings::lemma_strings_view_index(stack@);
    }
    let mut i: usize = 0;
    while i < stack.len()
        invariant
            i <= stack@.len(),
            forall|j: int| 0 <= j < i ==> stack@[j]@ != path@,
        decreases stack@.len() - i,
    {
        if str_eq(stack[i].as_str(), path) {
            proof {
                crate::strings::lemma_strings_view_index(stack@);
                assert(crate::strings::strings_view(stack@)[i as int] == path@);
            }
            return true;
        }
        i = i + 1;
    }
    proof {
        crate::strings::lemma_strings_view_index(stack@);
        assert forall|j: int|
            0 <= j < crate::strings::strings_view(stack@).len() implies crate::strings::strings_view(
            stack@,
        )[j] != path@ by {
            assert(stack@[j]@ != path@);
        }
    }
    false
}

/// Substitute and append the tail of `s` from `pos` on.
fn subst_onto(s: &Vec<char>, defs: &Defs, out: &mut Vec<char>, pos: usize, fuel: u64)
    requires
        pos <= s@.len(),
    ensures
        final(out)@ == old(out)@ + spec_subst(
            s@,
            defs_view(defs.entries@),
            pos as int,
            fuel as nat,
        ),
    decreases fuel,
{
    if fuel == 0 || pos >= s.len() {
        proof {
            assert(out@ =~= out@ + Seq::<char>::empty());
        }
        return ;
    }
    let ghost base = out@;
    match crate::literal::parse_identifier(s, pos) {
        Some((word, end)) => {
            proof {
                lemma_defs_lookup_view(defs.entries@, word@);
            }
            match defs.get(word.as_str()) {
                Some(Some(body)) => {
                    crate::render::append_str(out, body.as_str());
                },
                _ => {
                    crate::render::append_str(out, word.as_str());
                },
            }
            subst_onto(s, defs, out, end, fuel - 1);
            proof {
                assert(out@ =~= base + spec_subst(
                    s@,
                    defs_view(defs.entries@),
                    pos as int,
                    fuel as nat,
                ));
            }
        },
        None => {
            out.push(s[pos]);
            proof {
                assert(out@ =~= base + seq![s@[pos as int]]);
            }
            subst_onto(s, defs, out, pos + 1, fuel - 1);
            proof {
                assert(out@ =~= base + spec_subst(
                    s@,
                    defs_view(defs.entries@),
                    pos as int,
                    fuel as nat,
                ));
            }
        },
    }
}

/// Emit one raw line: every whole-word occurrence of a defined name is
/// replaced by its body, anything else is copied; a line break follows.
fn emit_raw_line(content: &str, defs: &Defs, out: &mut Vec<char>)
    ensures
        final(out)@ == old(out)@ + spec_emit_raw(content@, defs_view(defs.entries@)),
{
    let chars = str_to_chars(content);
    let fuel = crate::line::list_fuel_at(chars.len(), 0);
    subst_onto(&chars, defs, out, 0, fuel);
    out.push('\n');
    proof {
        assert(out@ =~= old(out)@ + spec_emit_raw(content@, defs_view(defs.entries@)));
    }
}

/// Evaluate the condition text of a branch against the definitions.
fn condition_holds(condition: &Located<String>, defs: &Defs) -> (r: Result<
    bool,
    PreprocessorError,
>)
    ensures
        match r {
            Ok(b) => spec_cond_value(
                condition.inner@,
                condition.location,
                defs_view(defs.entries@),
            ) == Ok::<bool, PreprocessorErrorView>(b),
            Err(e) => spec_cond_value(
                condition.inner@,
                condition.location,
                defs_view(defs.entries@),
            ) == Err::<bool, PreprocessorErrorView>(e@),
        },
{
    let chars = str_to_chars(condition.inner.as_str());
    let parsed = crate::expression::parse_expression_at(&chars, 0);
    let (node, used) = match parsed {
        Some(t) => t,
        None => {
            return Err(PreprocessorError::MalformedDirective { span: condition.location });
        },
    };
    let rest = crate::literal::skip_spaces(&chars, used);
    if rest != chars.len() {
        return Err(PreprocessorError::MalformedDirective { span: condition.location });
    }
    match node.evaluate(defs, WidthHint::Full) {
        Ok(v) => Ok(v != 0),
        Err(crate::expression::EvaluationError::UndefinedVariable { variable }) => Err(
            PreprocessorError::UndefinedConditionalName { name: variable },
        ),
        Err(_) => Err(PreprocessorError::MalformedDirective { span: condition.location }),
    }
}

/// Process one chunk.
fn process_node(
    fs: &InMemoryFilesystem,
    n: &Node,
    defs: &mut Defs,
    stack: &mut Vec<String>,
    out: &mut Vec<char>,
    dir: &str,
    fuel: u64,
    depth: u64,
) -> (r: Result<(), PreprocessorError>)
    ensures
        match r {
            Ok(()) => spec_process_node(
                fs.entries@,
                chunk_view(*n),
                defs_view(old(defs).entries@),
                old(out)@,
                crate::strings::strings_view(old(stack)@),
                dir@,
                fuel as nat,
                depth as nat,
            ) == Ok::<(DefsV, Seq<char>), PreprocessorErrorView>(
                (defs_view(final(defs).entries@), final(out)@),
            ) && final(stack)@ == old(stack)@,
            Err(e) => spec_process_node(
                fs.entries@,
                chunk_view(*n),
                defs_view(old(defs).entries@),
                old(out)@,
                crate::strings::strings_view(old(stack)@),
                dir@,
                fuel as nat,
                depth as nat,
            ) == Err::<(DefsV, Seq<char>), PreprocessorErrorView>(e@),
        },
    decreases fuel, depth as int, 2int, 0int,
{
    match n {
        Node::Raw { content } => {
            emit_raw_line(content.as_str(), defs, out);
            Ok(())
        },
        Node::Definition { key, content } => {
            let ghost prior = defs.entries@;
            let body = match content {
                Some(c) => crate::expression::clone_string(&c.inner),
                None => str_to_string(""),
            };
            proof {
                if content is None {
                    reveal_strlit("");
                    assert(body@ =~= Seq::<char>::empty());
                }
            }
            defs.set(crate::expression::clone_string(&key.inner), Some(body));
            proof {
                assert(defs.entries@.drop_last() =~= prior);
                assert(defs_view(defs.entries@) == defs_view(prior).push(
                    (
                        defs.entries@.last().0@,
                        match defs.entries@.last().1 {
                            Some(b) => Some(b@),
                            None => None,
                        },
                    ),
                ));
            }
            Ok(())
        },
        Node::Undefine { key } => {
            let ghost prior = defs.entries@;
            defs.set(crate::expression::clone_string(&key.inner), None);
            proof {
                assert(defs.entries@.drop_last() =~= prior);
                assert(defs_view(defs.entries@) == defs_view(prior).push(
                    (defs.entries@.last().0@, None),
                ));
            }
            Ok(())
        },
        Node::Error { message } => Err(
            PreprocessorError::UserError {
                msg: crate::expression::clone_string(&message.inner),
                span: message.location,
            },
        ),
        Node::Inclusion { path } => {
            let resolved = join_path(dir, path.inner.as_str());
            process_file(fs, resolved.as_str(), defs, stack, out, fuel)
        },
        Node::Condition { branches, fallback } => process_branches(
            fs,
            branches,
            0,
            fallback,
            defs,
            stack,
            out,
            dir,
            fuel,
            depth,
        ),
    }
}

/// Pick and process the branch of a conditional block, from branch `k`
/// on.
fn process_branches(
    fs: &InMemoryFilesystem,
    branches: &Vec<ConditionBranch>,
    k: usize,
    fallback: &Option<Located<Children>>,
    defs: &mut Defs,
    stack: &mut Vec<String>,
    out: &mut Vec<char>,
    dir: &str,
    fuel: u64,
    depth: u64,
) -> (r: Result<(), PreprocessorError>)
    requires
        k <= branches@.len(),
    ensures
        match r {
            Ok(()) => spec_process_branches(
                fs.entries@,
                branches_view(branches@),
                k as nat,
                fallback_view(*fallback),
                defs_view(old(defs).entries@),
                old(out)@,
                crate::strings::strings_view(old(stack)@),
                dir@,
                fuel as nat,
                depth as nat,
            ) == Ok::<(DefsV, Seq<char>), PreprocessorErrorView>(
                (defs_view(final(defs).entries@), final(out)@),
            ) && final(stack)@ == old(stack)@,
            Err(e) => spec_process_branches(
                fs.entries@,
                branches_view(branches@),
                k as nat,
                fallback_view(*fallback),
                defs_view(old(defs).entries@),
                old(out)@,
                crate::strings::strings_view(old(stack)@),
                dir@,
                fuel as nat,
                depth as nat,
            ) == Err::<(DefsV, Seq<char>), PreprocessorErrorView>(e@),
        },
    decreases fuel, depth as int, 1int, branches@.len() - k,
{
    proof {
        lemma_branches_view_index(branches@);
    }
    if depth == 0 {
        return Err(
            PreprocessorError::MalformedDirective { span: Span { offset: 0, length: 0 } },
        );
    }
    if k >= branches.len() {
        match fallback {
            Some(l) => process_chunks(fs, &l.inner, 0, defs, stack, out, dir, fuel, depth - 1),
            None => Ok(()),
        }
    } else {
        match condition_holds(&branches[k].condition, defs) {
            Ok(true) => process_chunks(
                fs,
                &branches[k].body.inner,
                0,
                defs,
                stack,
                out,
                dir,
                fuel,
                depth - 1,
            ),
            Ok(false) => process_branches(
                fs,
                branches,
                k + 1,
                fallback,
                defs,
                stack,
                out,
                dir,
                fuel,
                depth,
            ),
            Err(e) => Err(e),
        }
    }
}

/// Process the chunks of one body, from position `k` on.
fn process_chunks(
    fs: &InMemoryFilesystem,
    chunks: &Children,
    k: usize,
    defs: &mut Defs,
    stack: &mut Vec<String>,
    out: &mut Vec<char>,
    dir: &str,
    fuel: u64,
    depth: u64,
) -> (r: Result<(), PreprocessorError>)
    requires
        k <= chunks@.len(),
    ensures
        match r {
            Ok(()) => spec_process_chunks(
                fs.entries@,
                chunks_view(chunks@),
                k as nat,
                defs_view(old(defs).entries@),
                old(out)@,
                crate::strings::strings_view(old(stack)@),
                dir@,
                fuel as nat,
                depth as nat,
            ) == Ok::<(DefsV, Seq<char>), PreprocessorErrorView>(
                (defs_view(final(defs).entries@), final(out)@),
            ) && final(stack)@ == old(stack)@,
            Err(e) => spec_process_chunks(
                fs.entries@,
                chunks_view(chunks@),
                k as nat,
                defs_view(old(defs).entries@),
                old(out)@,
                crate::strings::strings_view(old(stack)@),
                dir@,
                fuel as nat,
                depth as nat,
            ) == Err::<(DefsV, Seq<char>), PreprocessorErrorView>(e@),
        },
    decreases fuel, depth as int, 3int, chunks@.len() - k,
{
    proof {
        lemma_chunks_view_index(chunks@);
    }
    if k >= chunks.len() {
        return Ok(());
    }
    match process_node(fs, &chunks[k].inner, defs, stack, out, dir, fuel, depth) {
        Ok(()) => process_chunks(fs, chunks, k + 1, defs, stack, out, dir, fuel, depth),
        Err(e) => Err(e),
    }
}

/// Process one file: look it up, parse it completely, and process its
/// chunks with the file on the stack.
///
/// Law: any inclusion that closes a cycle is rejected. Whenever the file
/// asked for is already on the stack of files being processed — however
/// it was reached — the result is exactly `IncludeCycle` naming it.
#[verifier::loop_isolation(false)]
pub fn process_file(
    fs: &InMemoryFilesystem,
    path: &str,
    defs: &mut Defs,
    stack: &mut Vec<String>,
    out: &mut Vec<char>,
    fuel: u64,
) -> (r: Result<(), PreprocessorError>)
    ensures
        match r {
            Ok(()) => spec_process_file(
                fs.entries@,
                path@,
                defs_view(old(defs).entries@),
                old(out)@,
                crate::strings::strings_view(old(stack)@),
                fuel as nat,
            ) == Ok::<(DefsV, Seq<char>), PreprocessorErrorView>(
                (defs_view(final(defs).entries@), final(out)@),
            ) && final(stack)@ == old(stack)@,
            Err(e) => spec_process_file(
                fs.entries@,
                path@,
                defs_view(old(defs).entries@),
                old(out)@,
                crate::strings::strings_view(old(stack)@),
                fuel as nat,
            ) == Err::<(DefsV, Seq<char>), PreprocessorErrorView>(e@),
        },
        (exists|i: int| 0 <= i < old(stack)@.len() && old(stack)@[i]@ == path@) ==> (
        r matches Err(e) && e matches PreprocessorError::IncludeCycle { path: p } && p@ == path@),
    decreases fuel, 0int, 0int, 0int,
{
    proof {
        crate::strings::lemma_strings_view_index(old(stack)@);
    }
    if fuel == 0 {
        return Err(PreprocessorError::IncludeCycle { path: str_to_string(path) });
    }
    if stack_contains(stack, path) {
        return Err(PreprocessorError::IncludeCycle { path: str_to_string(path) });
    }
    let text = match fs.get(path) {
        Some(t) => t,
        None => {
            return Err(PreprocessorError::FileNotFound { path: str_to_string(path) });
        },
    };
    let chars = str_to_chars(text.as_str());
    let n = chars.len() as u64;
    let pfuel: u64 = if n < 0xffff_ffff_ffff_fff0 {
        n + 2
    } else {
        n
    };
    proof {
        assert(chunks_view(Seq::<Located<Node>>::empty()) =~= Seq::<(ChunkView, Span)>::empty());
    }
    let (chunks, used) = parse_children_at(&chars, 0, 0, Vec::new(), pfuel);
    if used != chars.len() {
        return Err(
            PreprocessorError::MalformedDirective { span: Span { offset: used, length: 0 } },
        );
    }
    let dir = dir_of(path);
    let ghost stack0 = stack@;
    stack.push(str_to_string(path));
    proof {
        assert(stack@.drop_last() =~= stack0);
        assert(crate::strings::strings_view(stack@) == crate::strings::strings_view(stack0).push(
            stack@.last()@,
        ));
    }
    match process_chunks(fs, &chunks, 0, defs, stack, out, dir.as_str(), fuel - 1, pfuel) {
        Ok(()) => {},
        Err(e) => {
            return Err(e);
        },
    }
    let _ = stack.pop();
    proof {
        assert(stack@ =~= stack0);
    }
    Ok(())
}

/// Preprocess the file at `path` against `fs`: the flattened text —
/// definitions substituted, conditions resolved, inclusions expanded —
/// or the first error met, exactly as [`spec_preprocess`] says.
pub fn preprocess(fs: &InMemoryFilesystem, path: &str) -> (r: Result<String, PreprocessorError>)
    ensures
        match r {
            Ok(text) => spec_preprocess(fs.entries@, path@) == Ok::<
                Seq<char>,
                PreprocessorErrorView,
            >(text@),
            Err(e) => spec_preprocess(fs.entries@, path@) == Err::<
                Seq<char>,
                PreprocessorErrorView,
            >(e@),
        },
{
    let mut defs = Defs::new();
    let mut stack: Vec<String> = Vec::new();
    let mut out: Vec<char> = Vec::new();
    let n = fs.entries.len() as u64;
    let fuel: u64 = if n < 0xffff_ffff_ffff_ffff {
        n + 1
    } else {
        n
    };
    proof {
        assert(defs_view(Seq::<(String, Option<String>)>::empty()) =~= Seq::<
            (Seq<char>, Option<Seq<char>>),
        >::empty());
        assert(crate::strings::strings_view(Seq::<String>::empty()) =~= Seq::<Seq<char>>::empty());
    }
    match process_file(fs, path, &mut defs, &mut stack, &mut out, fuel) {
        Ok(()) => Ok(chars_to_string(&out)),
        Err(e) => Err(e),
    }
}


// ------------------------------------------------------------------
// Laws: preprocessing is the identity on directive-free sources.
// ------------------------------------------------------------------

/// Whether every chunk is a raw line.
pub open spec fn all_raw_v(chunks: Seq<(ChunkView, Span)>) -> bool {
    forall|i: int| 0 <= i < chunks.len() ==> (#[trigger] chunks[i]).0 is Raw
}

/// The text a raw chunk list spells from position `k` on: each line
/// verbatim, a line break after each.
pub open spec fn raw_join_v(chunks: Seq<(ChunkView, Span)>, k: nat) -> Seq<char>
    decreases chunks.len() - k,
{
    if k >= chunks.len() {
        Seq::empty()
    } else {
        (match pair_at(chunks, k).0 {
            ChunkView::Raw(content) => content + seq!['\n'],
            _ => Seq::empty(),
        }) + raw_join_v(chunks, k + 1)
    }
}

/// Substitution against an empty definition table copies the text.
proof fn lemma_subst_empty(s: Seq<char>, pos: int, fuel: nat)
    requires
        0 <= pos <= s.len(),
        fuel >= s.len() - pos,
    ensures
        spec_subst(s, Seq::empty(), pos, fuel) == s.subrange(pos, s.len() as int),
    decreases fuel,
{
    if fuel == 0 || pos >= s.len() {
        assert(s.subrange(pos, s.len() as int) =~= Seq::<char>::empty());
    } else {
        match crate::literal::spec_parse_identifier(s, pos) {
            Some(t) => {
                crate::literal::lemma_ident_end_bounds(s, pos + 1);
                lemma_subst_empty(s, t.1, (fuel - 1) as nat);
                assert(t.0 + s.subrange(t.1, s.len() as int) =~= s.subrange(pos, s.len() as int));
            },
            None => {
                lemma_subst_empty(s, pos + 1, (fuel - 1) as nat);
                assert(seq![char_at(s, pos as nat)] + s.subrange(pos + 1, s.len() as int)
                    =~= s.subrange(pos, s.len() as int));
            },
        }
    }
}

/// An emitted raw line under an empty definition table is the line
/// itself, with its line break.
proof fn lemma_emit_raw_empty(content: Seq<char>)
    requires
        content.len() <= 0xffff_ffff_ffff_fffe,
    ensures
        spec_emit_raw(content, Seq::empty()) == content + seq!['\n'],
{
    lemma_subst_empty(content, 0, crate::line::list_fuel(content.len() as int));
    assert(content.subrange(0, content.len() as int) =~= content);
}

/// Law (processing half): a directive-free chunk list processed with
/// nothing defined succeeds, defines nothing, and emits exactly its
/// lines, each with its line break.
#[verifier::spinoff_prover]
#[verifier::rlimit(100)]
pub proof fn lemma_process_chunks_all_raw(
    fs: Seq<(String, String)>,
    chunks: Seq<(ChunkView, Span)>,
    k: nat,
    out: Seq<char>,
    stack: Seq<Seq<char>>,
    dir: Seq<char>,
    fuel: nat,
    depth: nat,
)
    requires
        k <= chunks.len(),
        all_raw_v(chunks),
        forall|i: int|
            0 <= i < chunks.len() ==> ((#[trigger] chunks[i]).0 matches ChunkView::Raw(c)
                ==> c.len() <= 0xffff_ffff_ffff_fffe),
    ensures
        spec_process_chunks(fs, chunks, k, Seq::empty(), out, stack, dir, fuel, depth) == Ok::<
            (DefsV, Seq<char>),
            PreprocessorErrorView,
        >((Seq::empty(), out + raw_join_v(chunks, k))),
    decreases chunks.len() - k,
{
    if k >= chunks.len() {
        assert(out + raw_join_v(chunks, k) =~= out);
    } else {
        assert(pair_at(chunks, k).0 is Raw);
        let content = pair_at(chunks, k).0->Raw_0;
        lemma_emit_raw_empty(content);
        assert(spec_process_node(
            fs,
            pair_at(chunks, k).0,
            Seq::empty(),
            out,
            stack,
            dir,
            fuel,
            depth,
        ) == Ok::<(DefsV, Seq<char>), PreprocessorErrorView>(
            (Seq::empty(), out + (content + seq!['\n'])),
        ));
        lemma_process_chunks_all_raw(
            fs,
            chunks,
            k + 1,
            out + (content + seq!['\n']),
            stack,
            dir,
            fuel,
            depth,
        );
        assert((out + (content + seq!['\n'])) + raw_join_v(chunks, k + 1) =~= out + raw_join_v(
            chunks,
            k,
        ));
    }
}

/// Whether no line of `s` begins with `#`: no character at the start of
/// the text or right after a line break is a `#`.
pub open spec fn hash_free(s: Seq<char>) -> bool {
    forall|i: int|
        0 <= i < s.len() && (i == 0 || char_at(s, (i - 1) as nat) == '\n') ==> #[trigger] char_at(
            s,
            i as nat,
        ) != '#'
}

/// Whether every carriage return is part of a carriage-return-newline
/// pair: the line endings are those the file format allows.
pub open spec fn crlf_clean(s: Seq<char>) -> bool {
    forall|i: int|
        0 <= i < s.len() && #[trigger] char_at(s, i as nat) == '\r' ==> i + 1 < s.len() && char_at(
            s,
            (i + 1) as nat,
        ) == '\n'
}

/// The text of `s` from `pos` on, line by line: each line verbatim with
/// a single line break after it — carriage-return-newline pairs become
/// plain line breaks, and the last line always ends in one.
pub open spec fn spec_lines_text(s: Seq<char>, pos: int, fuel: nat) -> Seq<char>
    decreases fuel,
{
    if fuel == 0 {
        Seq::empty()
    } else {
        let e = crate::line::spec_comment_end(s, pos);
        s.subrange(pos, e) + seq!['\n'] + (if e < s.len() && char_at(s, e as nat) == '\n' {
            spec_lines_text(s, e + 1, (fuel - 1) as nat)
        } else if e < s.len() && e + 1 < s.len() && char_at(s, e as nat) == '\r' && char_at(
            s,
            (e + 1) as nat,
        ) == '\n' {
            spec_lines_text(s, e + 2, (fuel - 1) as nat)
        } else {
            Seq::empty()
        })
    }
}

proof fn lemma_scan_bounds(s: Seq<char>, pos: int)
    requires
        0 <= pos <= s.len(),
    ensures
        pos <= crate::line::spec_comment_end(s, pos) <= s.len(),
        crate::line::spec_comment_end(s, pos) < s.len() ==> char_at(
            s,
            crate::line::spec_comment_end(s, pos) as nat,
        ) == '\n' || char_at(s, crate::line::spec_comment_end(s, pos) as nat) == '\r',
    decreases s.len() - pos,
{
    if pos < s.len() && char_at(s, pos as nat) != '\n' && char_at(s, pos as nat) != '\r' {
        lemma_scan_bounds(s, pos + 1);
    }
}

/// The shape of parsing a `#`-free, well-ended source: the whole text is
/// consumed, the accumulated prefix is kept, and everything appended is
/// a raw chunk holding a slice of the source.
#[verifier::spinoff_prover]
#[verifier::rlimit(100)]
proof fn lemma_parse_hash_free_shape(
    s: Seq<char>,
    pos: int,
    base: int,
    acc: Seq<(ChunkView, Span)>,
    fuel: nat,
)
    requires
        0 <= base <= pos <= s.len(),
        pos == 0 || char_at(s, (pos - 1) as nat) == '\n',
        hash_free(s),
        crlf_clean(s),
        fuel >= s.len() - pos + 2,
    ensures
        spec_parse_children(s, pos, base, acc, fuel).1 == s.len(),
        acc.len() < spec_parse_children(s, pos, base, acc, fuel).0.len(),
        forall|j: int|
            0 <= j < acc.len() ==> #[trigger] spec_parse_children(s, pos, base, acc, fuel).0[j]
                == acc[j],
        forall|j: int|
            acc.len() <= j < spec_parse_children(s, pos, base, acc, fuel).0.len() ==> ((
            #[trigger] spec_parse_children(s, pos, base, acc, fuel).0[j]).0 matches ChunkView::Raw(
                c,
            ) && c.len() <= s.len()),
    decreases fuel,
{
    lemma_scan_bounds(s, pos);
    let e = crate::line::spec_comment_end(s, pos);
    if pos < s.len() {
        assert(char_at(s, pos as nat) != '#');
    }
    assert(spec_parse_chunk(s, pos, (fuel - 1) as nat) == Some(
        (ChunkView::Raw(s.subrange(pos, e)), e),
    ));
    let acc2 = acc.push(
        (
            ChunkView::Raw(s.subrange(pos, e)),
            Span { offset: (pos - base) as usize, length: (e - pos) as usize },
        ),
    );
    if e < s.len() && char_at(s, e as nat) == '\n' {
        lemma_parse_hash_free_shape(s, e + 1, base, acc2, (fuel - 1) as nat);
        let r = spec_parse_children(s, e + 1, base, acc2, (fuel - 1) as nat);
        assert(r == spec_parse_children(s, pos, base, acc, fuel));
        assert forall|j: int|
            0 <= j < acc.len() implies #[trigger] r.0[j] == acc[j] by {
            assert(r.0[j] == acc2[j]);
        }
    } else if e < s.len() {
        assert(char_at(s, e as nat) == '\r');
        assert(e + 1 < s.len() && char_at(s, (e + 1) as nat) == '\n');
        lemma_parse_hash_free_shape(s, e + 2, base, acc2, (fuel - 1) as nat);
        let r = spec_parse_children(s, e + 2, base, acc2, (fuel - 1) as nat);
        assert(r == spec_parse_children(s, pos, base, acc, fuel));
        assert forall|j: int|
            0 <= j < acc.len() implies #[trigger] r.0[j] == acc[j] by {
            assert(r.0[j] == acc2[j]);
        }
    } else {
        let r = spec_parse_children(s, pos, base, acc, fuel);
        assert(r == (acc2, e));
        assert forall|j: int| 0 <= j < acc.len() implies #[trigger] r.0[j] == acc[j] by {
            assert(acc2[j] == acc[j]);
        }
        assert forall|j: int|
            acc.len() <= j < r.0.len() implies ((#[trigger] r.0[j]).0 matches ChunkView::Raw(c)
            && c.len() <= s.len()) by {
            assert(r.0[j] == acc2[acc.len() as int]);
        }
    }
}

/// Law (parsing half): a source with no `#`-lines and well-formed line
/// endings parses completely into raw chunks only, and those chunks
/// spell the source itself, line by line, line endings normalised.
#[verifier::spinoff_prover]
#[verifier::rlimit(100)]
pub proof fn lemma_parse_hash_free(
    s: Seq<char>,
    pos: int,
    base: int,
    acc: Seq<(ChunkView, Span)>,
    fuel: nat,
)
    requires
        0 <= base <= pos <= s.len(),
        pos == 0 || char_at(s, (pos - 1) as nat) == '\n',
        hash_free(s),
        crlf_clean(s),
        fuel >= s.len() - pos + 2,
    ensures
        spec_parse_children(s, pos, base, acc, fuel).1 == s.len(),
        acc.len() < spec_parse_children(s, pos, base, acc, fuel).0.len(),
        forall|j: int|
            0 <= j < acc.len() ==> #[trigger] spec_parse_children(s, pos, base, acc, fuel).0[j]
                == acc[j],
        forall|j: int|
            acc.len() <= j < spec_parse_children(s, pos, base, acc, fuel).0.len() ==> ((
            #[trigger] spec_parse_children(s, pos, base, acc, fuel).0[j]).0 matches ChunkView::Raw(
                c,
            ) && c.len() <= s.len()),
        raw_join_v(spec_parse_children(s, pos, base, acc, fuel).0, acc.len()) == spec_lines_text(
            s,
            pos,
            fuel,
        ),
    decreases fuel,
{
    lemma_parse_hash_free_shape(s, pos, base, acc, fuel);
    lemma_scan_bounds(s, pos);
    let e = crate::line::spec_comment_end(s, pos);
    if pos < s.len() {
        assert(char_at(s, pos as nat) != '#');
    }
    assert(spec_parse_chunk(s, pos, (fuel - 1) as nat) == Some(
        (ChunkView::Raw(s.subrange(pos, e)), e),
    ));
    let acc2 = acc.push(
        (
            ChunkView::Raw(s.subrange(pos, e)),
            Span { offset: (pos - base) as usize, length: (e - pos) as usize },
        ),
    );
    let content = s.subrange(pos, e);
    if e < s.len() && char_at(s, e as nat) == '\n' {
        lemma_parse_hash_free(s, e + 1, base, acc2, (fuel - 1) as nat);
        let r = spec_parse_children(s, e + 1, base, acc2, (fuel - 1) as nat);
        assert(r == spec_parse_children(s, pos, base, acc, fuel));
        assert(r.0[acc.len() as int] == acc2[acc.len() as int]);
        assert(raw_join_v(r.0, acc.len()) == (content + seq!['\n']) + raw_join_v(
            r.0,
            acc.len() + 1,
        ));
        assert((content + seq!['\n']) + spec_lines_text(s, e + 1, (fuel - 1) as nat)
            =~= content + seq!['\n'] + spec_lines_text(s, e + 1, (fuel - 1) as nat));
    } else if e < s.len() {
        assert(char_at(s, e as nat) == '\r');
        assert(e + 1 < s.len() && char_at(s, (e + 1) as nat) == '\n');
        lemma_parse_hash_free(s, e + 2, base, acc2, (fuel - 1) as nat);
        let r = spec_parse_children(s, e + 2, base, acc2, (fuel - 1) as nat);
        assert(r == spec_parse_children(s, pos, base, acc, fuel));
        assert(r.0[acc.len() as int] == acc2[acc.len() as int]);
        assert(raw_join_v(r.0, acc.len()) == (content + seq!['\n']) + raw_join_v(
            r.0,
            acc.len() + 1,
        ));
        assert((content + seq!['\n']) + spec_lines_text(s, e + 2, (fuel - 1) as nat)
            =~= content + seq!['\n'] + spec_lines_text(s, e + 2, (fuel - 1) as nat));
    } else {
        let r = spec_parse_children(s, pos, base, acc, fuel);
        assert(r == (acc2, e));
        assert(r.0[acc.len() as int] == acc2[acc.len() as int]);
        assert(raw_join_v(acc2, acc2.len()) =~= Seq::<char>::empty());
        assert(raw_join_v(acc2, acc.len()) == (content + seq!['\n']) + raw_join_v(
            acc2,
            acc.len() + 1,
        ));
        assert((content + seq!['\n']) + Seq::<char>::empty() =~= content + seq!['\n']
            + Seq::<char>::empty());
        assert(spec_lines_text(s, pos, fuel) =~= content + seq!['\n']);
        assert(raw_join_v(acc2, acc.len()) =~= content + seq!['\n']);
    }
}

/// Law: preprocessing is the identity on directive-free input. When the
/// root file holds no `#`-lines and well-formed line endings — and no
/// inclusion, definition or condition can therefore act — preprocessing
/// returns the source verbatim, modulo line-ending normalisation: each
/// line comes back unchanged, carriage-return-newline pairs become plain
/// line breaks, and the text ends in exactly one final line break.
pub proof fn lemma_preprocess_macro_free(
    fs: Seq<(String, String)>,
    path: Seq<char>,
    text: Seq<char>,
)
    requires
        fs_lookup(fs, path) == Some(text),
        hash_free(text),
        crlf_clean(text),
        text.len() < 0xffff_ffff_ffff_fff0,
    ensures
        spec_preprocess(fs, path) == Ok::<Seq<char>, PreprocessorErrorView>(
            spec_lines_text(text, 0, parse_fuel(text.len() as int)),
        ),
{
    let fuel = preprocess_fuel(fs.len() as int);
    assert(fuel >= 1);
    assert(!Seq::<Seq<char>>::empty().contains(path));
    lemma_parse_hash_free(text, 0, 0, Seq::empty(), parse_fuel(text.len() as int));
    let parsed = spec_parse(text);
    assert(all_raw_v(Seq::<(ChunkView, Span)>::empty()));
    lemma_process_chunks_all_raw(
        fs,
        parsed.0,
        0,
        Seq::empty(),
        Seq::<Seq<char>>::empty().push(path),
        spec_dir_of(path),
        (fuel - 1) as nat,
        parse_fuel(text.len() as int),
    );
    assert(Seq::<char>::empty() + raw_join_v(parsed.0, 0) =~= raw_join_v(parsed.0, 0));
}


/// Law: a reached include cycle is rejected. If the root file parses and
/// its first chunk is an inclusion that resolves back to the root — the
/// smallest cycle in the inclusion graph — preprocessing fails with
/// exactly `IncludeCycle` naming the root. (Longer cycles fail at the
/// step that re-enters a file on the processing stack, as the contract
/// of [`process_file`] states for every call.)
pub proof fn lemma_self_inclusion_cycle(
    fs: Seq<(String, String)>,
    path: Seq<char>,
    text: Seq<char>,
    inc: Seq<char>,
)
    requires
        fs_lookup(fs, path) == Some(text),
        spec_parse(text).1 == text.len(),
        spec_parse(text).0.len() > 0,
        pair_at(spec_parse(text).0, 0).0 matches ChunkView::Inclusion { path: p, span: _ } && p
            == inc,
        spec_join(spec_dir_of(path), inc) == path,
    ensures
        spec_preprocess(fs, path) == Err::<Seq<char>, PreprocessorErrorView>(
            PreprocessorErrorView::IncludeCycle(path),
        ),
{
    lemma_fs_lookup_nonempty(fs, path);
    let fuel = preprocess_fuel(fs.len() as int);
    assert(fuel >= 2);
    assert(!Seq::<Seq<char>>::empty().contains(path));
    let stack = Seq::<Seq<char>>::empty().push(path);
    assert(stack.contains(path)) by {
        assert(stack[0] == path);
    }
    let chunks = spec_parse(text).0;
    assert(spec_process_file(
        fs,
        path,
        Seq::empty(),
        Seq::empty(),
        stack,
        (fuel - 1) as nat,
    ) == Err::<(DefsV, Seq<char>), PreprocessorErrorView>(
        PreprocessorErrorView::IncludeCycle(path),
    ));
}

/// A path the filesystem knows sits among its entries.
proof fn lemma_fs_lookup_nonempty(fs: Seq<(String, String)>, path: Seq<char>)
    requires
        fs_lookup(fs, path) is Some,
    ensures
        fs.len() >= 1,
{
}

} // verus!



