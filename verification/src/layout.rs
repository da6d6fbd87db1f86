//! The memory layout engine.
//!
//! A parsed program is walked once, in order, with an address cursor that
//! starts at [`PROGRAM_START`]. Every symbol of a line binds to the cursor;
//! an instruction or a `.word` occupies one cell; `.space N` reserves `N`
//! cells; `.addr N` moves the cursor; `.string "s"` writes one cell per
//! Unicode scalar of `s`. Writing to an occupied address, defining a label
//! twice, or handing a directive the wrong argument shape stops the pass
//! with the corresponding error.
//!
//! The whole pass is modelled by the spec function [`spec_layout`]; the
//! executable [`layout_memory`] returns exactly what the model says, with
//! the label table and the cell map realised as association vectors.

use vstd::prelude::*;

use crate::expression::Context;
use crate::expression::EmptyContext;
use crate::expression::EvalErrorView;
use crate::expression::EvaluationError;
use crate::expression::Node;
use crate::expression::Value;
use crate::expression::WidthHint;
use crate::expression::spec_evaluate;
use crate::line::DirectiveArgument;
use crate::line::DirectiveKind;
use crate::line::Line;
use crate::line::LineContent;
use crate::strings::char_at;
use crate::strings::str_eq;

verus! {

/// A memory address: one cell of the flat, sparse address space.
pub type Address = u64;

/// The address at which the layout cursor starts.
pub const PROGRAM_START: u64 = 1000;

/// The logical content of one memory cell.
#[derive(Debug, PartialEq)]
pub enum Placement {
    /// A cell reserved by `.space`.
    Reserved,
    /// A cell filled by `.string`.
    Char(char),
    /// An instruction or a `.word` directive.
    Line(LineContent),
}

/// What the layout pass can fail with.
#[derive(Debug, PartialEq)]
pub enum MemoryLayoutError {
    /// A label was defined twice.
    DuplicateLabel { label: String },
    /// A directive's argument has the wrong shape for its kind.
    InvalidDirectiveArgument { kind: DirectiveKind },
    /// A directive's argument did not evaluate to a usable value.
    DirectiveArgumentEvaluation { kind: DirectiveKind, inner: EvaluationError },
    /// A write hit an address that is already filled.
    MemoryOverlap { address: Address },
}

/// The spec-level image of a [`MemoryLayoutError`].
pub enum LayoutErrorView {
    DuplicateLabel(Seq<char>),
    InvalidDirectiveArgument(DirectiveKind),
    DirectiveArgumentEvaluation(DirectiveKind, EvalErrorView),
    MemoryOverlap(Address),
}

impl View for MemoryLayoutError {
    type V = LayoutErrorView;

    open spec fn view(&self) -> LayoutErrorView {
        match self {
            MemoryLayoutError::DuplicateLabel { label } => LayoutErrorView::DuplicateLabel(label@),
            MemoryLayoutError::InvalidDirectiveArgument { kind } =>
                LayoutErrorView::InvalidDirectiveArgument(*kind),
            MemoryLayoutError::DirectiveArgumentEvaluation { kind, inner } =>
                LayoutErrorView::DirectiveArgumentEvaluation(*kind, inner@),
            MemoryLayoutError::MemoryOverlap { address } => LayoutErrorView::MemoryOverlap(
                *address,
            ),
        }
    }
}

/// The state the layout pass threads from line to line.
pub struct LayoutState {
    pub labels: Map<Seq<char>, Address>,
    pub memory: Map<Address, Placement>,
    pub cursor: Address,
}

/// The address after `a`, wrapping at the top of the address space.
pub open spec fn wrap_inc(a: Address) -> Address {
    if a == u64::MAX {
        0
    } else {
        (a + 1) as u64
    }
}

/// Bind the symbols of one line, in declared order, to `addr`. The first
/// name already present fails the pass.
pub open spec fn spec_insert_labels(
    labels: Map<Seq<char>, Address>,
    symbols: Seq<String>,
    addr: Address,
) -> Result<Map<Seq<char>, Address>, LayoutErrorView>
    decreases symbols.len(),
{
    if symbols.len() == 0 {
        Ok(labels)
    } else if labels.contains_key(symbols[0]@) {
        Err(LayoutErrorView::DuplicateLabel(symbols[0]@))
    } else {
        spec_insert_labels(labels.insert(symbols[0]@, addr), symbols.drop_first(), addr)
    }
}

/// Write one placement at `a`: an occupied address fails, else the cell
/// is filled and the cursor moves one past it.
pub open spec fn spec_write_one(
    memory: Map<Address, Placement>,
    a: Address,
    p: Placement,
) -> Result<(Map<Address, Placement>, Address), LayoutErrorView> {
    if memory.contains_key(a) {
        Err(LayoutErrorView::MemoryOverlap(a))
    } else {
        Ok((memory.insert(a, p), wrap_inc(a)))
    }
}

/// Reserve `n` consecutive cells starting at `start`.
pub open spec fn spec_write_reserved(
    memory: Map<Address, Placement>,
    start: Address,
    n: nat,
) -> Result<(Map<Address, Placement>, Address), LayoutErrorView>
    decreases n,
{
    if n == 0 {
        Ok((memory, start))
    } else {
        match spec_write_one(memory, start, Placement::Reserved) {
            Ok(mc) => spec_write_reserved(mc.0, mc.1, (n - 1) as nat),
            Err(e) => Err(e),
        }
    }
}

/// Write one character cell per scalar of `s` from position `i` on,
/// starting at `start`.
pub open spec fn spec_write_chars_from(
    memory: Map<Address, Placement>,
    start: Address,
    s: Seq<char>,
    i: nat,
) -> Result<(Map<Address, Placement>, Address), LayoutErrorView>
    decreases s.len() - i,
{
    if i >= s.len() {
        Ok((memory, start))
    } else {
        match spec_write_one(memory, start, Placement::Char(char_at(s, i))) {
            Ok(mc) => spec_write_chars_from(mc.0, mc.1, s, i + 1),
            Err(e) => Err(e),
        }
    }
}

/// Write one character cell per scalar of `s`, starting at `start`.
pub open spec fn spec_write_chars(
    memory: Map<Address, Placement>,
    start: Address,
    s: Seq<char>,
) -> Result<(Map<Address, Placement>, Address), LayoutErrorView> {
    spec_write_chars_from(memory, start, s, 0)
}

/// Narrow an evaluated [`Value`] into the address space.
pub open spec fn spec_narrow_address(v: Value) -> Option<Address> {
    if 0 <= v <= u64::MAX {
        Some(v as u64)
    } else {
        None
    }
}

/// Evaluate a `.space` or `.addr` argument against the empty context and
/// narrow it; failures carry the directive kind.
pub open spec fn spec_eval_directive(e: Node, kind: DirectiveKind) -> Result<
    Address,
    LayoutErrorView,
> {
    match spec_evaluate(e@, Map::<Seq<char>, Value>::empty(), WidthHint::Full) {
        Ok(v) => match spec_narrow_address(v) {
            Some(n) => Ok(n),
            None => Err(
                LayoutErrorView::DirectiveArgumentEvaluation(kind, EvalErrorView::Overflow),
            ),
        },
        Err(err) => Err(LayoutErrorView::DirectiveArgumentEvaluation(kind, err)),
    }
}

/// Place the content of one line at the cursor.
pub open spec fn spec_place_content(state: LayoutState, content: LineContent) -> Result<
    LayoutState,
    LayoutErrorView,
> {
    match content {
        LineContent::Instruction { .. } => match spec_write_one(
            state.memory,
            state.cursor,
            Placement::Line(content),
        ) {
            Ok(mc) => Ok(LayoutState { labels: state.labels, memory: mc.0, cursor: mc.1 }),
            Err(e) => Err(e),
        },
        LineContent::Directive {
            kind: DirectiveKind::Word,
            argument: DirectiveArgument::Expression(_),
        } => match spec_write_one(
            state.memory,
            state.cursor,
            Placement::Line(content),
        ) {
            Ok(mc) => Ok(LayoutState { labels: state.labels, memory: mc.0, cursor: mc.1 }),
            Err(e) => Err(e),
        },
        LineContent::Directive {
            kind: DirectiveKind::Space,
            argument: DirectiveArgument::Expression(e),
        } => match spec_eval_directive(e, DirectiveKind::Space) {
            Ok(n) => match spec_write_reserved(state.memory, state.cursor, n as nat) {
                Ok(mc) => Ok(LayoutState { labels: state.labels, memory: mc.0, cursor: mc.1 }),
                Err(er) => Err(er),
            },
            Err(er) => Err(er),
        },
        LineContent::Directive {
            kind: DirectiveKind::Addr,
            argument: DirectiveArgument::Expression(e),
        } => match spec_eval_directive(e, DirectiveKind::Addr) {
            Ok(n) => Ok(LayoutState { labels: state.labels, memory: state.memory, cursor: n }),
            Err(er) => Err(er),
        },
        LineContent::Directive {
            kind: DirectiveKind::String,
            argument: DirectiveArgument::StringLiteral(s),
        } => match spec_write_chars(state.memory, state.cursor, s@) {
            Ok(mc) => Ok(LayoutState { labels: state.labels, memory: mc.0, cursor: mc.1 }),
            Err(er) => Err(er),
        },
        LineContent::Directive { kind, .. } => Err(LayoutErrorView::InvalidDirectiveArgument(kind)),
    }
}

/// Place one whole line: bind its symbols, place its content if any.
pub open spec fn spec_place_line(state: LayoutState, line: Line) -> Result<
    LayoutState,
    LayoutErrorView,
> {
    match spec_insert_labels(state.labels, line.symbols@, state.cursor) {
        Err(e) => Err(e),
        Ok(labels) => {
            let bound = LayoutState { labels, memory: state.memory, cursor: state.cursor };
            match line.content {
                None => Ok(bound),
                Some(content) => spec_place_content(bound, content),
            }
        },
    }
}

/// Fold [`spec_place_line`] over the remaining lines.
pub open spec fn spec_layout_from(state: LayoutState, lines: Seq<Line>) -> Result<
    LayoutState,
    LayoutErrorView,
>
    decreases lines.len(),
{
    if lines.len() == 0 {
        Ok(state)
    } else {
        match spec_place_line(state, lines[0]) {
            Ok(st) => spec_layout_from(st, lines.drop_first()),
            Err(e) => Err(e),
        }
    }
}

/// Empty tables, cursor at [`PROGRAM_START`].
pub open spec fn initial_layout_state() -> LayoutState {
    LayoutState { labels: Map::empty(), memory: Map::empty(), cursor: PROGRAM_START }
}

/// The meaning of laying out a whole program.
pub open spec fn spec_layout(lines: Seq<Line>) -> Result<LayoutState, LayoutErrorView> {
    spec_layout_from(initial_layout_state(), lines)
}

// ------------------------------------------------------------------
// The label table.
// ------------------------------------------------------------------

/// The mapping an association list denotes: later entries win.
pub open spec fn labels_map(s: Seq<(String, Address)>) -> Map<Seq<char>, Address>
    decreases s.len(),
{
    if s.len() == 0 {
        Map::empty()
    } else {
        labels_map(s.drop_last()).insert(s.last().0@, s.last().1)
    }
}

/// No two entries share a name.
pub open spec fn labels_wf(s: Seq<(String, Address)>) -> bool {
    forall|i: int, j: int| 0 <= i < j < s.len() ==> s[i].0@ != s[j].0@
}

proof fn lemma_labels_map_contains(s: Seq<(String, Address)>, k: Seq<char>)
    ensures
        labels_map(s).contains_key(k) <==> exists|i: int| 0 <= i < s.len() && s[i].0@ == k,
    decreases s.len(),
{
    if s.len() > 0 {
        lemma_labels_map_contains(s.drop_last(), k);
        if s.last().0@ == k {
            assert(s[s.len() - 1].0@ == k);
        } else if labels_map(s.drop_last()).contains_key(k) {
            let i = choose|i: int| 0 <= i < s.drop_last().len() && s.drop_last()[i].0@ == k;
            assert(s[i].0@ == k);
        } else if exists|i: int| 0 <= i < s.len() && s[i].0@ == k {
            let i = choose|i: int| 0 <= i < s.len() && s[i].0@ == k;
            assert(i < s.len() - 1);
            assert(s.drop_last()[i].0@ == k);
        }
    }
}

proof fn lemma_labels_map_value(s: Seq<(String, Address)>, i: int)
    requires
        0 <= i < s.len(),
        forall|j: int| i < j < s.len() ==> s[j].0@ != s[i].0@,
    ensures
        labels_map(s).contains_key(s[i].0@),
        labels_map(s)[s[i].0@] == s[i].1,
    decreases s.len(),
{
    if i == s.len() - 1 {
    } else {
        assert(s.drop_last()[i] == s[i]);
        lemma_labels_map_value(s.drop_last(), i);
        assert(s.last().0@ != s[i].0@);
    }
}

proof fn lemma_labels_map_push(s: Seq<(String, Address)>, e: (String, Address))
    ensures
        labels_map(s.push(e)) == labels_map(s).insert(e.0@, e.1),
{
    assert(s.push(e).drop_last() =~= s);
    assert(s.push(e).last() == e);
}

/// The label table: a name-to-address association with unique names,
/// in insertion order.
pub struct Labels {
    pub entries: Vec<(String, Address)>,
}

impl View for Labels {
    type V = Map<Seq<char>, Address>;

    open spec fn view(&self) -> Map<Seq<char>, Address> {
        labels_map(self.entries@)
    }
}

impl Labels {
    /// Whether no two entries share a name.
    pub open spec fn wf(&self) -> bool {
        labels_wf(self.entries@)
    }

    /// An empty table.
    pub fn new() -> (r: Labels)
        ensures
            r@ == Map::<Seq<char>, Address>::empty(),
            r.wf(),
            r.entries@.len() == 0,
    {
        Labels { entries: Vec::new() }
    }

    /// How many labels are bound.
    pub fn len(&self) -> (r: usize)
        ensures
            r == self.entries@.len(),
    {
        self.entries.len()
    }

    /// Whether `name` is bound.
    pub fn contains_key(&self, name: &str) -> (r: bool)
        ensures
            r == self@.contains_key(name@),
    {
        let n = self.entries.len();
        let mut i: usize = 0;
        while i < n
            invariant
                n == self.entries@.len(),
                i <= n,
                forall|j: int| 0 <= j < i ==> self.entries@[j].0@ != name@,
            decreases n - i,
        {
            if str_eq(self.entries[i].0.as_str(), name) {
                proof {
                    lemma_labels_map_contains(self.entries@, name@);
                    assert(self.entries@[i as int].0@ == name@);
                }
                return true;
            }
            i = i + 1;
        }
        proof {
            lemma_labels_map_contains(self.entries@, name@);
        }
        false
    }

    /// The address `name` is bound to, if any.
    pub fn get(&self, name: &str) -> (r: Option<Address>)
        ensures
            r == (if self@.contains_key(name@) {
                Some(self@[name@])
            } else {
                Option::<Address>::None
            }),
    {
        let n = self.entries.len();
        let mut i: usize = n;
        while i > 0
            invariant
                n == self.entries@.len(),
                i <= n,
                forall|j: int| i <= j < n ==> self.entries@[j].0@ != name@,
            decreases i,
        {
            i = i - 1;
            if str_eq(self.entries[i].0.as_str(), name) {
                proof {
                    lemma_labels_map_value(self.entries@, i as int);
                }
                return Some(self.entries[i].1);
            }
        }
        proof {
            lemma_labels_map_contains(self.entries@, name@);
        }
        None
    }

    /// Bind `name` to `address`, as a new entry at the end.
    pub fn insert(&mut self, name: String, address: Address)
        requires
            !old(self)@.contains_key(name@),
        ensures
            final(self)@ == old(self)@.insert(name@, address),
            final(self).entries@ == old(self).entries@.push((name, address)),
            old(self).wf() ==> final(self).wf(),
    {
        proof {
            lemma_labels_map_contains(self.entries@, name@);
            lemma_labels_map_push(self.entries@, (name, address));
        }
        let ghost prior = self.entries@;
        self.entries.push((name, address));
        proof {
            if labels_wf(prior) {
                assert forall|i: int, j: int|
                    0 <= i < j < self.entries@.len() implies self.entries@[i].0@
                    != self.entries@[j].0@ by {
                    if j < self.entries@.len() - 1 {
                        assert(prior[i] == self.entries@[i]);
                        assert(prior[j] == self.entries@[j]);
                    } else {
                        assert(prior[i] == self.entries@[i]);
                    }
                }
            }
        }
    }
}

impl Context for Labels {
    /// Labels resolve to their addresses, widened to [`Value`].
    open spec fn env(&self) -> Map<Seq<char>, Value> {
        Map::new(|k: Seq<char>| self@.contains_key(k), |k: Seq<char>| self@[k] as Value)
    }

    fn resolve_variable(&self, variable: &str) -> (r: Option<Value>) {
        match self.get(variable) {
            Some(a) => Some(a as Value),
            None => None,
        }
    }
}

// ------------------------------------------------------------------
// The cell map.
// ------------------------------------------------------------------

/// The mapping an association list denotes: later entries win.
pub open spec fn mem_map(s: Seq<(Address, Placement)>) -> Map<Address, Placement>
    decreases s.len(),
{
    if s.len() == 0 {
        Map::empty()
    } else {
        mem_map(s.drop_last()).insert(s.last().0, s.last().1)
    }
}

/// Entries are strictly ordered by address.
pub open spec fn mem_sorted(s: Seq<(Address, Placement)>) -> bool {
    forall|i: int, j: int| 0 <= i < j < s.len() ==> s[i].0 < s[j].0
}

proof fn lemma_mem_map_contains(s: Seq<(Address, Placement)>, k: Address)
    ensures
        mem_map(s).contains_key(k) <==> exists|i: int| 0 <= i < s.len() && s[i].0 == k,
    decreases s.len(),
{
    if s.len() > 0 {
        lemma_mem_map_contains(s.drop_last(), k);
        if s.last().0 == k {
            assert(s[s.len() - 1].0 == k);
        } else if mem_map(s.drop_last()).contains_key(k) {
            let i = choose|i: int| 0 <= i < s.drop_last().len() && s.drop_last()[i].0 == k;
            assert(s[i].0 == k);
        } else if exists|i: int| 0 <= i < s.len() && s[i].0 == k {
            let i = choose|i: int| 0 <= i < s.len() && s[i].0 == k;
            assert(i < s.len() - 1);
            assert(s.drop_last()[i].0 == k);
        }
    }
}

proof fn lemma_mem_map_value(s: Seq<(Address, Placement)>, i: int)
    requires
        0 <= i < s.len(),
        forall|j: int| i < j < s.len() ==> s[j].0 != s[i].0,
    ensures
        mem_map(s).contains_key(s[i].0),
        mem_map(s)[s[i].0] == s[i].1,
    decreases s.len(),
{
    if i == s.len() - 1 {
    } else {
        assert(s.drop_last()[i] == s[i]);
        lemma_mem_map_value(s.drop_last(), i);
        assert(s.last().0 != s[i].0);
    }
}

proof fn lemma_mem_map_insert_seq(s: Seq<(Address, Placement)>, pos: int, e: (Address, Placement))
    requires
        0 <= pos <= s.len(),
        forall|i: int| 0 <= i < s.len() ==> s[i].0 != e.0,
    ensures
        mem_map(s.insert(pos, e)) == mem_map(s).insert(e.0, e.1),
    decreases s.len(),
{
    let t = s.insert(pos, e);
    if pos == s.len() {
        assert(t =~= s.push(e));
        assert(t.drop_last() =~= s);
        assert(t.last() == e);
    } else {
        assert(t.len() == s.len() + 1);
        assert(t.last() == s.last());
        assert(t.drop_last() =~= s.drop_last().insert(pos, e));
        assert(forall|i: int|
            0 <= i < s.drop_last().len() ==> s.drop_last()[i] == s[i]);
        lemma_mem_map_insert_seq(s.drop_last(), pos, e);
        assert(s.last().0 != e.0);
        assert(mem_map(s.drop_last()).insert(e.0, e.1).insert(s.last().0, s.last().1)
            =~= mem_map(s.drop_last()).insert(s.last().0, s.last().1).insert(e.0, e.1));
    }
}

/// The cell map: address-to-placement entries, strictly sorted by address.
pub struct Memory {
    pub entries: Vec<(Address, Placement)>,
}

impl View for Memory {
    type V = Map<Address, Placement>;

    open spec fn view(&self) -> Map<Address, Placement> {
        mem_map(self.entries@)
    }
}

impl Memory {
    /// Whether the entries are strictly sorted by address.
    pub open spec fn wf(&self) -> bool {
        mem_sorted(self.entries@)
    }

    /// An empty map.
    pub fn new() -> (r: Memory)
        ensures
            r@ == Map::<Address, Placement>::empty(),
            r.wf(),
            r.entries@.len() == 0,
    {
        Memory { entries: Vec::new() }
    }

    /// How many cells are filled.
    pub fn len(&self) -> (r: usize)
        ensures
            r == self.entries@.len(),
    {
        self.entries.len()
    }

    /// Whether `address` is filled.
    pub fn contains_key(&self, address: Address) -> (r: bool)
        ensures
            r == self@.contains_key(address),
    {
        let n = self.entries.len();
        let mut i: usize = 0;
        while i < n
            invariant
                n == self.entries@.len(),
                i <= n,
                forall|j: int| 0 <= j < i ==> self.entries@[j].0 != address,
            decreases n - i,
        {
            if self.entries[i].0 == address {
                proof {
                    lemma_mem_map_contains(self.entries@, address);
                    assert(self.entries@[i as int].0 == address);
                }
                return true;
            }
            i = i + 1;
        }
        proof {
            lemma_mem_map_contains(self.entries@, address);
        }
        false
    }

    /// The placement at `address`, if any.
    pub fn get(&self, address: Address) -> (r: Option<&Placement>)
        ensures
            r matches Some(p) ==> self@.contains_key(address) && *p == self@[address],
            r is None ==> !self@.contains_key(address),
    {
        let n = self.entries.len();
        let mut i: usize = n;
        while i > 0
            invariant
                n == self.entries@.len(),
                i <= n,
                forall|j: int| i <= j < n ==> self.entries@[j].0 != address,
            decreases i,
        {
            i = i - 1;
            if self.entries[i].0 == address {
                proof {
                    lemma_mem_map_value(self.entries@, i as int);
                }
                return Some(&self.entries[i].1);
            }
        }
        proof {
            lemma_mem_map_contains(self.entries@, address);
        }
        None
    }

    /// Fill `address` with `placement`, keeping the entries sorted.
    pub fn insert(&mut self, address: Address, placement: Placement)
        requires
            !old(self)@.contains_key(address),
            old(self).wf(),
        ensures
            final(self)@ == old(self)@.insert(address, placement),
            final(self).wf(),
            final(self).entries@.len() == old(self).entries@.len() + 1,
    {
        let n = self.entries.len();
        let mut pos: usize = 0;
        while pos < n && self.entries[pos].0 < address
            invariant
                n == self.entries@.len(),
                pos <= n,
                self@ == old(self)@,
                self.entries@ == old(self).entries@,
                forall|j: int| 0 <= j < pos ==> self.entries@[j].0 < address,
            decreases n - pos,
        {
            pos = pos + 1;
        }
        let ghost prior = self.entries@;
        proof {
            lemma_mem_map_contains(prior, address);
            assert(forall|i: int| 0 <= i < prior.len() ==> prior[i].0 != address);
            lemma_mem_map_insert_seq(prior, pos as int, (address, placement));
        }
        self.entries.insert(pos, (address, placement));
        proof {
            assert forall|i: int, j: int|
                0 <= i < j < self.entries@.len() implies self.entries@[i].0
                < self.entries@[j].0 by {
                if j < pos {
                    assert(self.entries@[i] == prior[i]);
                    assert(self.entries@[j] == prior[j]);
                } else if j == pos {
                    assert(self.entries@[i] == prior[i]);
                } else if i < pos {
                    assert(self.entries@[i] == prior[i]);
                    assert(self.entries@[j] == prior[j - 1]);
                    assert(pos < prior.len() ==> prior[pos as int].0 > address);
                    assert(prior[pos as int].0 <= prior[j - 1].0);
                } else if i == pos {
                    assert(self.entries@[j] == prior[j - 1]);
                    assert(prior[pos as int].0 > address);
                    assert(prior[pos as int].0 <= prior[j - 1].0);
                } else {
                    assert(self.entries@[i] == prior[i - 1]);
                    assert(self.entries@[j] == prior[j - 1]);
                }
            }
        }
    }
}

// ------------------------------------------------------------------
// The layout itself.
// ------------------------------------------------------------------

/// A laid-out program: the label table and the cell map.
pub struct Layout {
    pub labels: Labels,
    pub memory: Memory,
}

impl Layout {
    /// Both tables are well formed: unique label names, cell entries
    /// strictly sorted by address.
    pub open spec fn well_formed(&self) -> bool {
        self.labels.wf() && self.memory.wf()
    }

    /// The spec-level state this layout realises, at a given cursor.
    pub open spec fn state(&self, cursor: Address) -> LayoutState {
        LayoutState { labels: self.labels@, memory: self.memory@, cursor }
    }

    /// An empty layout.
    pub fn new() -> (r: Layout)
        ensures
            r.well_formed(),
            r.labels@ == Map::<Seq<char>, Address>::empty(),
            r.memory@ == Map::<Address, Placement>::empty(),
    {
        Layout { labels: Labels::new(), memory: Memory::new() }
    }

    /// Bind `label` to `address`; a name bound before fails.
    pub fn insert_label(&mut self, label: String, address: Address) -> (r: Result<
        (),
        MemoryLayoutError,
    >)
        requires
            old(self).well_formed(),
        ensures
            final(self).well_formed(),
            final(self).memory == old(self).memory,
            match r {
                Ok(()) => !old(self).labels@.contains_key(label@) && final(self).labels@ == old(
                    self,
                ).labels@.insert(label@, address),
                Err(e) => old(self).labels@.contains_key(label@) && e@
                    == LayoutErrorView::DuplicateLabel(label@) && final(self).labels == old(
                    self,
                ).labels,
            },
    {
        if self.labels.contains_key(label.as_str()) {
            Err(MemoryLayoutError::DuplicateLabel { label })
        } else {
            self.labels.insert(label, address);
            Ok(())
        }
    }

    /// Fill `address` with `placement`; an occupied address fails.
    pub fn insert_placement(&mut self, address: Address, placement: Placement) -> (r: Result<
        (),
        MemoryLayoutError,
    >)
        requires
            old(self).well_formed(),
        ensures
            final(self).well_formed(),
            final(self).labels == old(self).labels,
            match r {
                Ok(()) => !old(self).memory@.contains_key(address) && final(self).memory@ == old(
                    self,
                ).memory@.insert(address, placement),
                Err(e) => old(self).memory@.contains_key(address) && e@
                    == LayoutErrorView::MemoryOverlap(address) && final(self).memory == old(
                    self,
                ).memory,
            },
    {
        if self.memory.contains_key(address) {
            Err(MemoryLayoutError::MemoryOverlap { address })
        } else {
            self.memory.insert(address, placement);
            Ok(())
        }
    }
}

impl Layout {
    /// The memory image as rendered text: one row per filled cell, in
    /// address order (the cell map is kept sorted), each cell rendered
    /// as [`crate::render::spec_render_placement`] says.
    pub fn memory_report(&self) -> (r: Vec<(Address, String)>)
        ensures
            r@.len() == self.memory.entries@.len(),
            forall|i: int|
                0 <= i < r@.len() ==> (#[trigger] r@[i]).0 == self.memory.entries@[i].0
                    && r@[i].1@ == crate::render::spec_render_placement(
                    self.memory.entries@[i].1,
                ),
            self.memory.wf() ==> forall|i: int, j: int|
                0 <= i < j < r@.len() ==> r@[i].0 < r@[j].0,
    {
        let mut out: Vec<(Address, String)> = Vec::new();
        let mut i: usize = 0;
        while i < self.memory.entries.len()
            invariant
                i <= self.memory.entries@.len(),
                out@.len() == i,
                forall|j: int|
                    0 <= j < i ==> (#[trigger] out@[j]).0 == self.memory.entries@[j].0
                        && out@[j].1@ == crate::render::spec_render_placement(
                        self.memory.entries@[j].1,
                    ),
            decreases self.memory.entries@.len() - i,
        {
            let a = self.memory.entries[i].0;
            let text = crate::render::render_placement(&self.memory.entries[i].1);
            out.push((a, text));
            i = i + 1;
        }
        proof {
            if self.memory.wf() {
                assert forall|a: int, b: int|
                    0 <= a < b < out@.len() implies out@[a].0 < out@[b].0 by {
                    assert(out@[a].0 == self.memory.entries@[a].0);
                    assert(out@[b].0 == self.memory.entries@[b].0);
                }
            }
        }
        out
    }
}

/// The address after `a`, wrapping at the top of the address space.
fn next_address(a: Address) -> (r: Address)
    ensures
        r == wrap_inc(a),
{
    if a == u64::MAX {
        0
    } else {
        a + 1
    }
}

/// Evaluate a directive argument against the empty context and narrow it
/// into the address space.
fn eval_directive_argument(e: &Node, kind: DirectiveKind) -> (r: Result<Address, MemoryLayoutError>)
    ensures
        match (r, spec_eval_directive(*e, kind)) {
            (Ok(n), Ok(m)) => n == m,
            (Err(er), Err(ev)) => er@ == ev,
            _ => false,
        },
{
    match e.evaluate(&EmptyContext, WidthHint::Full) {
        Ok(v) => {
            if 0 <= v && v <= u64::MAX as i128 {
                Ok(v as u64)
            } else {
                Err(
                    MemoryLayoutError::DirectiveArgumentEvaluation {
                        kind,
                        inner: EvaluationError::Overflow,
                    },
                )
            }
        },
        Err(inner) => Err(MemoryLayoutError::DirectiveArgumentEvaluation { kind, inner }),
    }
}

/// What remains of the pass once the current line's labels are bound:
/// place the line's content, if any, and lay out the rest of the program.
pub open spec fn after_labels(
    labels: Map<Seq<char>, Address>,
    memory: Map<Address, Placement>,
    cursor: Address,
    content: Option<LineContent>,
    rest: Seq<Line>,
) -> Result<LayoutState, LayoutErrorView> {
    let st = LayoutState { labels, memory, cursor };
    match content {
        None => spec_layout_from(st, rest),
        Some(c) => match spec_place_content(st, c) {
            Ok(st2) => spec_layout_from(st2, rest),
            Err(e) => Err(e),
        },
    }
}

/// What remains of the pass while the current line reserves `n` more
/// cells: finish the reservation, and lay out the rest of the program.
pub open spec fn reserved_then(
    labels: Map<Seq<char>, Address>,
    memory: Map<Address, Placement>,
    cursor: Address,
    n: nat,
    rest: Seq<Line>,
) -> Result<LayoutState, LayoutErrorView> {
    match spec_write_reserved(memory, cursor, n) {
        Ok(mc) => spec_layout_from(LayoutState { labels, memory: mc.0, cursor: mc.1 }, rest),
        Err(e) => Err(e),
    }
}

/// What remains of the pass while the current line still writes the
/// character cells of `s` from position `i` on: finish them, and lay out
/// the rest.
pub open spec fn chars_then(
    labels: Map<Seq<char>, Address>,
    memory: Map<Address, Placement>,
    cursor: Address,
    s: Seq<char>,
    i: nat,
    rest: Seq<Line>,
) -> Result<LayoutState, LayoutErrorView> {
    match spec_write_chars_from(memory, cursor, s, i) {
        Ok(mc) => spec_layout_from(LayoutState { labels, memory: mc.0, cursor: mc.1 }, rest),
        Err(e) => Err(e),
    }
}

/// Whether the executable outcome `r` is the image of the layout model
/// on `program`.
pub open spec fn layout_result_matches(
    r: Result<Layout, MemoryLayoutError>,
    program: Seq<Line>,
) -> bool {
    match (r, spec_layout(program)) {
        (Ok(l), Ok(m)) => l.well_formed() && l.labels@ == m.labels && l.memory@ == m.memory,
        (Err(e), Err(ev)) => e@ == ev,
        _ => false,
    }
}

/// Lay out the memory of a program: bind every label and place every
/// cell, walking the lines in order with the address cursor.
///
/// The result is exactly what [`spec_layout`] says: the label table and
/// the cell map of the model on success, the model's first error
/// otherwise.
#[verifier::loop_isolation(false)]
pub fn layout_memory(program: Vec<Line>) -> (r: Result<Layout, MemoryLayoutError>)
    ensures
        layout_result_matches(r, program@),
{
    let ghost all = program@;
    let mut program = program;
    let mut layout = Layout::new();
    let mut cursor: Address = PROGRAM_START;
    proof {
        assert(layout.state(cursor) =~= initial_layout_state());
    }
    while program.len() > 0
        invariant
            layout.well_formed(),
            spec_layout_from(layout.state(cursor), program@) == spec_layout(all),
        decreases program@.len(),
    {
        let ghost pre = program@;
        let ghost state0 = layout.state(cursor);
        let line = program.remove(0);
        let ghost lineg = line;
        proof {
            assert(pre[0] == lineg);
            assert(program@ =~= pre.drop_first());
            assert(spec_layout_from(state0, pre) == (match spec_place_line(state0, lineg) {
                Ok(st) => spec_layout_from(st, program@),
                Err(e) => Err(e),
            }));
        }
        let Line { symbols: symbols0, content, comment: _ } = line;
        let mut symbols = symbols0;
        proof {
            assert(lineg.symbols@ == symbols@);
            assert(lineg.content == content);
            assert(spec_layout(all) == (match spec_insert_labels(
                layout.labels@,
                symbols@,
                cursor,
            ) {
                Ok(lbls) => after_labels(lbls, layout.memory@, cursor, content, program@),
                Err(e) => Err(e),
            }));
        }
        while symbols.len() > 0
            invariant
                layout.well_formed(),
                spec_layout(all) == (match spec_insert_labels(layout.labels@, symbols@, cursor) {
                    Ok(lbls) => after_labels(lbls, layout.memory@, cursor, content, program@),
                    Err(e) => Err(e),
                }),
            decreases symbols@.len(),
        {
            let ghost syms_pre = symbols@;
            let ghost labels_pre = layout.labels@;
            let sym = symbols.remove(0);
            let ghost symg = sym;
            proof {
                assert(syms_pre[0] == symg);
                assert(symbols@ =~= syms_pre.drop_first());
            }
            match layout.insert_label(sym, cursor) {
                Ok(()) => {
                    proof {
                        assert(spec_insert_labels(labels_pre, syms_pre, cursor)
                            == spec_insert_labels(
                            labels_pre.insert(symg@, cursor),
                            syms_pre.drop_first(),
                            cursor,
                        ));
                    }
                },
                Err(e) => {
                    proof {
                        assert(spec_insert_labels(labels_pre, syms_pre, cursor) == Err::<
                            Map<Seq<char>, Address>,
                            LayoutErrorView,
                        >(LayoutErrorView::DuplicateLabel(symg@)));
                    }
                    return Err(e);
                },
            }
        }
        let ghost bound_labels = layout.labels@;
        proof {
            assert(spec_insert_labels(layout.labels@, symbols@, cursor) == Ok::<
                Map<Seq<char>, Address>,
                LayoutErrorView,
            >(bound_labels));
            assert(spec_layout(all) == after_labels(
                bound_labels,
                layout.memory@,
                cursor,
                content,
                program@,
            ));
        }
        match content {
            None => {
                proof {
                    assert(spec_layout(all) == spec_layout_from(layout.state(cursor), program@));
                }
            },
            Some(content) => {
                let ghost content_g = content;
                let ghost rest = program@;
                proof {
                    assert(spec_layout(all) == (match spec_place_content(
                        LayoutState { labels: bound_labels, memory: layout.memory@, cursor },
                        content_g,
                    ) {
                        Ok(st2) => spec_layout_from(st2, rest),
                        Err(e) => Err(e),
                    }));
                }
                let is_cell = match &content {
                    LineContent::Instruction { .. } => true,
                    LineContent::Directive {
                        kind: DirectiveKind::Word,
                        argument: DirectiveArgument::Expression(_),
                    } => true,
                    _ => false,
                };
                if is_cell {
                    match layout.insert_placement(cursor, Placement::Line(content)) {
                        Ok(()) => {
                            cursor = next_address(cursor);
                            proof {
                                assert(spec_layout(all) == spec_layout_from(
                                    layout.state(cursor),
                                    program@,
                                ));
                            }
                        },
                        Err(e) => {
                            return Err(e);
                        },
                    }
                } else {
                    match content {
                        LineContent::Directive { kind, argument } => match kind {
                            DirectiveKind::Space => match argument {
                                DirectiveArgument::Expression(e) => {
                                    let n = match eval_directive_argument(
                                        &e,
                                        DirectiveKind::Space,
                                    ) {
                                        Ok(n) => n,
                                        Err(er) => {
                                            return Err(er);
                                        },
                                    };
                                    proof {
                                        assert(spec_layout(all) == reserved_then(
                                            bound_labels,
                                            layout.memory@,
                                            cursor,
                                            n as nat,
                                            rest,
                                        ));
                                    }
                                    let mut k: u64 = 0;
                                    while k < n
                                        invariant
                                            layout.well_formed(),
                                            k <= n,
                                            layout.labels@ == bound_labels,
                                            spec_layout(all) == reserved_then(
                                                bound_labels,
                                                layout.memory@,
                                                cursor,
                                                (n - k) as nat,
                                                rest,
                                            ),
                                        decreases n - k,
                                    {
                                        match layout.insert_placement(
                                            cursor,
                                            Placement::Reserved,
                                        ) {
                                            Ok(()) => {
                                                cursor = next_address(cursor);
                                                k = k + 1;
                                            },
                                            Err(er) => {
                                                return Err(er);
                                            },
                                        }
                                    }
                                    proof {
                                        assert(spec_layout(all) == spec_layout_from(
                                            layout.state(cursor),
                                            program@,
                                        ));
                                    }
                                },
                                DirectiveArgument::StringLiteral(_) => {
                                    return Err(
                                        MemoryLayoutError::InvalidDirectiveArgument {
                                            kind: DirectiveKind::Space,
                                        },
                                    );
                                },
                            },
                            DirectiveKind::Addr => match argument {
                                DirectiveArgument::Expression(e) => {
                                    match eval_directive_argument(&e, DirectiveKind::Addr) {
                                        Ok(n) => {
                                            cursor = n;
                                            proof {
                                                assert(spec_layout(all) == spec_layout_from(
                                                    layout.state(cursor),
                                                    program@,
                                                ));
                                            }
                                        },
                                        Err(er) => {
                                            return Err(er);
                                        },
                                    }
                                },
                                DirectiveArgument::StringLiteral(_) => {
                                    return Err(
                                        MemoryLayoutError::InvalidDirectiveArgument {
                                            kind: DirectiveKind::Addr,
                                        },
                                    );
                                },
                            },
                            DirectiveKind::String => match argument {
                                DirectiveArgument::StringLiteral(s) => {
                                    let ghost sg = s@;
                                    let chars = crate::strings::str_to_chars(s.as_str());
                                    let len = chars.len();
                                    proof {
                                        assert(spec_layout(all) == chars_then(
                                            bound_labels,
                                            layout.memory@,
                                            cursor,
                                            sg,
                                            0,
                                            rest,
                                        ));
                                    }
                                    let mut i: usize = 0;
                                    while i < len
                                        invariant
                                            layout.well_formed(),
                                            i <= len,
                                            len == sg.len(),
                                            chars@ == sg,
                                            layout.labels@ == bound_labels,
                                            spec_layout(all) == chars_then(
                                                bound_labels,
                                                layout.memory@,
                                                cursor,
                                                sg,
                                                i as nat,
                                                rest,
                                            ),
                                        decreases len - i,
                                    {
                                        let c = chars[i];
                                        match layout.insert_placement(
                                            cursor,
                                            Placement::Char(c),
                                        ) {
                                            Ok(()) => {
                                                cursor = next_address(cursor);
                                                i = i + 1;
                                            },
                                            Err(er) => {
                                                return Err(er);
                                            },
                                        }
                                    }
                                    proof {
                                        assert(spec_layout(all) == spec_layout_from(
                                            layout.state(cursor),
                                            program@,
                                        ));
                                    }
                                },
                                DirectiveArgument::Expression(_) => {
                                    return Err(
                                        MemoryLayoutError::InvalidDirectiveArgument {
                                            kind: DirectiveKind::String,
                                        },
                                    );
                                },
                            },
                            DirectiveKind::Word => {
                                return Err(
                                    MemoryLayoutError::InvalidDirectiveArgument {
                                        kind: DirectiveKind::Word,
                                    },
                                );
                            },
                        },
                        LineContent::Instruction { .. } => {
                            proof {
                                assert(false);
                            }
                            return Err(
                                MemoryLayoutError::InvalidDirectiveArgument {
                                    kind: DirectiveKind::Word,
                                },
                            );
                        },
                    }
                }
            },
        }
    }
    proof {
        assert(program@ =~= Seq::<Line>::empty());
    }
    Ok(layout)
}

} // verus!
