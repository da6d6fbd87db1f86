//! Laws of the layout pass.
//!
//! These proof functions state, once and for all programs, the properties
//! the layout engine promises beyond the exact contract of
//! [`crate::layout::layout_memory`]: determinism, uniqueness of the two
//! tables, and the shape of the cell ranges that `.space` and `.string`
//! fill.

use vstd::prelude::*;

use crate::layout::Address;
use crate::layout::Layout;
use crate::layout::LayoutErrorView;
use crate::layout::MemoryLayoutError;
use crate::layout::Placement;
use crate::layout::layout_result_matches;
use crate::strings::char_at;
use crate::layout::spec_write_chars_from;
use crate::layout::spec_write_reserved;
use crate::layout::spec_place_content;
use crate::layout::spec_eval_directive;
use crate::layout::LayoutState;
use crate::line::DirectiveArgument;
use crate::line::DirectiveKind;
use crate::line::LineContent;
use crate::layout::wrap_inc;
use crate::line::Line;

verus! {

/// Law: laying out a program is a pure function of the program. Any two
/// outcomes that satisfy the layout contract on the same program agree:
/// the same label table and cell map on success, the same error view
/// otherwise.
pub proof fn lemma_layout_deterministic(
    program: Seq<Line>,
    r1: Result<Layout, MemoryLayoutError>,
    r2: Result<Layout, MemoryLayoutError>,
)
    requires
        layout_result_matches(r1, program),
        layout_result_matches(r2, program),
    ensures
        r1 is Ok <==> r2 is Ok,
        r1 is Ok ==> r1->Ok_0.labels@ == r2->Ok_0.labels@,
        r1 is Ok ==> r1->Ok_0.memory@ == r2->Ok_0.memory@,
        r1 is Err ==> r1->Err_0@ == r2->Err_0@,
{
}

/// Law: in a well-formed layout the label table and the cell map are
/// partial functions: no name and no address occurs in two entries.
/// (Two distinct labels may still share one address.)
pub proof fn lemma_layout_tables_unique(l: Layout)
    requires
        l.well_formed(),
    ensures
        forall|i: int, j: int|
            0 <= i < j < l.labels.entries@.len() ==> l.labels.entries@[i].0@
                != l.labels.entries@[j].0@,
        forall|i: int, j: int|
            0 <= i < j < l.memory.entries@.len() ==> l.memory.entries@[i].0
                != l.memory.entries@[j].0,
{
}

/// Law: reserving `n` cells from `start` (with the line staying below the
/// top of the address space) succeeds exactly when the whole range
/// `start..start + n` is free; it then fills exactly that contiguous
/// range with reserved cells, touches nothing else, and leaves the
/// cursor at `start + n`, never below `start`.
pub proof fn lemma_write_reserved_law(memory: Map<Address, Placement>, start: Address, n: nat)
    requires
        start + n <= u64::MAX,
    ensures
        (spec_write_reserved(memory, start, n) is Ok) <==> (forall|a: Address|
            start <= a < start + n ==> !memory.contains_key(a)),
        spec_write_reserved(memory, start, n) matches Ok(mc) ==> {
            &&& mc.1 == start + n
            &&& forall|a: Address|
                start <= a < start + n ==> #[trigger] mc.0.contains_key(a) && mc.0[a]
                    == Placement::Reserved
            &&& forall|a: Address|
                !(start <= a < start + n) ==> (#[trigger] mc.0.contains_key(a)
                    <==> memory.contains_key(a))
            &&& forall|a: Address|
                !(start <= a < start + n) && memory.contains_key(a) ==> #[trigger] mc.0[a]
                    == memory[a]
        },
    decreases n,
{
    if n > 0 && !memory.contains_key(start) {
        let memory2 = memory.insert(start, Placement::Reserved);
        let next = (start + 1) as Address;
        lemma_write_reserved_law(memory2, next, (n - 1) as nat);
        let inner = spec_write_reserved(memory2, next, (n - 1) as nat);
        assert(wrap_inc(start) == next);
        assert(spec_write_reserved(memory, start, n) == inner);
        if inner is Ok {
            let mc = inner->Ok_0;
            assert forall|a: Address| start <= a < start + n implies !memory.contains_key(a) by {
                if a != start {
                    assert(!memory2.contains_key(a));
                }
            }
            assert forall|a: Address|
                start <= a < start + n implies mc.0.contains_key(a) && mc.0[a]
                == Placement::Reserved by {
                if a == start {
                    assert(memory2.contains_key(start) && memory2[start] == Placement::Reserved);
                    assert(mc.0.contains_key(start) <==> memory2.contains_key(start));
                    assert(memory2.contains_key(start) ==> mc.0[start] == memory2[start]);
                } else {
                    assert(next <= a < next + ((n - 1) as nat));
                    assert((inner->Ok_0).0.contains_key(a));
                    assert((inner->Ok_0).0[a] == Placement::Reserved);
                }
            }
            assert forall|a: Address|
                !(start <= a < start + n) implies (#[trigger] mc.0.contains_key(a)
                <==> memory.contains_key(a)) by {
                assert(mc.0.contains_key(a) <==> memory2.contains_key(a));
            }
            assert forall|a: Address|
                !(start <= a < start + n) && memory.contains_key(a) implies #[trigger] mc.0[a]
                == memory[a] by {
                assert(mc.0.contains_key(a) <==> memory2.contains_key(a));
                assert(memory2.contains_key(a) ==> mc.0[a] == memory2[a]);
            }
        }
    }
}

/// Law: writing the scalars of `s` from position `i` on, starting at
/// address `start` (with the line staying below the top of the address
/// space), succeeds exactly when the whole range
/// `start..start + (s.len() - i)` is free. It then fills exactly that
/// contiguous range, one character cell per Unicode scalar and in order
/// — the cell at `start + k` holds scalar `s[i + k]` — touches nothing
/// else, and leaves the cursor at `start + (s.len() - i)`, never below
/// `start`. For a whole `.string` argument `i` is zero: the number of
/// cells written equals the number of Unicode scalars of `s`, not bytes
/// and not code units.
#[verifier::spinoff_prover]
pub proof fn lemma_write_chars_law(
    memory: Map<Address, Placement>,
    start: Address,
    s: Seq<char>,
    i: nat,
)
    requires
        i <= s.len(),
        start + (s.len() - i) <= u64::MAX,
    ensures
        (spec_write_chars_from(memory, start, s, i) is Ok) <==> (forall|a: Address|
            start <= a < start + (s.len() - i) ==> !memory.contains_key(a)),
        spec_write_chars_from(memory, start, s, i) is Ok ==> (spec_write_chars_from(
            memory,
            start,
            s,
            i,
        )->Ok_0).1 == start + (s.len() - i),
        spec_write_chars_from(memory, start, s, i) is Ok ==> forall|a: Address|
            start <= a < start + (s.len() - i) ==> #[trigger] (spec_write_chars_from(
                memory,
                start,
                s,
                i,
            )->Ok_0).0.contains_key(a) && (spec_write_chars_from(memory, start, s, i)->Ok_0).0[a]
                == Placement::Char(char_at(s, (i + (a - start)) as nat)),
        spec_write_chars_from(memory, start, s, i) is Ok ==> forall|a: Address|
            !(start <= a < start + (s.len() - i)) ==> (#[trigger] (spec_write_chars_from(
                memory,
                start,
                s,
                i,
            )->Ok_0).0.contains_key(a) <==> memory.contains_key(a)) && (memory.contains_key(a)
                ==> (spec_write_chars_from(memory, start, s, i)->Ok_0).0[a] == memory[a]),
    decreases s.len() - i,
{
    if i < s.len() && !memory.contains_key(start) {
        let memory2 = memory.insert(start, Placement::Char(char_at(s, i)));
        let next = (start + 1) as Address;
        lemma_write_chars_law(memory2, next, s, i + 1);
        let inner = spec_write_chars_from(memory2, next, s, i + 1);
        assert(wrap_inc(start) == next);
        assert(spec_write_chars_from(memory, start, s, i) == inner);
        if inner is Ok {
            assert forall|a: Address|
                start <= a < start + (s.len() - i) implies !memory.contains_key(a) by {
                if a != start {
                    assert(!memory2.contains_key(a));
                }
            }
            assert forall|a: Address|
                start <= a < start + (s.len() - i) implies #[trigger] (inner
                ->Ok_0).0.contains_key(a) && (inner->Ok_0).0[a] == Placement::Char(
                char_at(s, (i + (a - start)) as nat),
            ) by {
                if a == start {
                    assert(memory2.contains_key(start) && memory2[start] == Placement::Char(
                        char_at(s, i),
                    ));
                    assert((inner->Ok_0).0.contains_key(start) <==> memory2.contains_key(start));
                    assert((inner->Ok_0).0[start] == memory2[start]);
                } else {
                    assert(next <= a < next + (s.len() - (i + 1)));
                    assert((spec_write_chars_from(memory2, next, s, i + 1)->Ok_0).0.contains_key(
                        a,
                    ));
                    assert((spec_write_chars_from(memory2, next, s, i + 1)->Ok_0).0[a]
                        == Placement::Char(char_at(s, ((i + 1) + (a - next)) as nat)));
                    assert((i + 1) + (a - next) == i + (a - start));
                }
            }
            assert forall|a: Address|
                !(start <= a < start + (s.len() - i)) implies (#[trigger] (inner
                ->Ok_0).0.contains_key(a) <==> memory.contains_key(a)) && (memory.contains_key(a)
                ==> (inner->Ok_0).0[a] == memory[a]) by {
                assert(((spec_write_chars_from(memory2, next, s, i + 1)->Ok_0).0.contains_key(a)
                    <==> memory2.contains_key(a)) && (memory2.contains_key(a)
                    ==> (spec_write_chars_from(memory2, next, s, i + 1)->Ok_0).0[a]
                    == memory2[a]));
            }
        }
    }
}


proof fn lemma_write_reserved_preserves(memory: Map<Address, Placement>, start: Address, n: nat, a: Address)
    requires
        spec_write_reserved(memory, start, n) is Ok,
        memory.contains_key(a),
    ensures
        (spec_write_reserved(memory, start, n)->Ok_0).0.contains_key(a),
    decreases n,
{
    if n > 0 && !memory.contains_key(start) {
        lemma_write_reserved_preserves(
            memory.insert(start, Placement::Reserved),
            wrap_inc(start),
            (n - 1) as nat,
            a,
        );
    }
}

proof fn lemma_write_reserved_monotone(memory: Map<Address, Placement>, start: Address, n: nat)
    requires
        spec_write_reserved(memory, start, n) is Ok,
        !(spec_write_reserved(memory, start, n)->Ok_0).0.contains_key(u64::MAX as Address),
    ensures
        (spec_write_reserved(memory, start, n)->Ok_0).1 >= start,
    decreases n,
{
    if n > 0 && !memory.contains_key(start) {
        let memory2 = memory.insert(start, Placement::Reserved);
        if start == u64::MAX {
            lemma_write_reserved_preserves(memory2, wrap_inc(start), (n - 1) as nat, start);
        } else {
            lemma_write_reserved_monotone(memory2, wrap_inc(start), (n - 1) as nat);
        }
    }
}

proof fn lemma_write_chars_preserves(
    memory: Map<Address, Placement>,
    start: Address,
    t: Seq<char>,
    i: nat,
    a: Address,
)
    requires
        spec_write_chars_from(memory, start, t, i) is Ok,
        memory.contains_key(a),
    ensures
        (spec_write_chars_from(memory, start, t, i)->Ok_0).0.contains_key(a),
    decreases t.len() - i,
{
    if i < t.len() && !memory.contains_key(start) {
        lemma_write_chars_preserves(
            memory.insert(start, Placement::Char(char_at(t, i))),
            wrap_inc(start),
            t,
            i + 1,
            a,
        );
    }
}

proof fn lemma_write_chars_monotone(
    memory: Map<Address, Placement>,
    start: Address,
    t: Seq<char>,
    i: nat,
)
    requires
        spec_write_chars_from(memory, start, t, i) is Ok,
        !(spec_write_chars_from(memory, start, t, i)->Ok_0).0.contains_key(u64::MAX as Address),
    ensures
        (spec_write_chars_from(memory, start, t, i)->Ok_0).1 >= start,
    decreases t.len() - i,
{
    if i < t.len() && !memory.contains_key(start) {
        let memory2 = memory.insert(start, Placement::Char(char_at(t, i)));
        if start == u64::MAX {
            lemma_write_chars_preserves(memory2, wrap_inc(start), t, i + 1, start);
        } else {
            lemma_write_chars_monotone(memory2, wrap_inc(start), t, i + 1);
        }
    }
}

/// Law: within a line the cursor only moves forward. For any content
/// that is not an `.addr` directive, a successful placement that stays
/// below the top of the address space (nothing was written at the very
/// last address) leaves the cursor at or above where it started: `.addr`
/// is the only way to move the cursor backward.
pub proof fn lemma_cursor_moves_back_only_by_addr(state: LayoutState, content: LineContent)
    requires
        spec_place_content(state, content) is Ok,
        !(spec_place_content(state, content)->Ok_0).memory.contains_key(u64::MAX as Address),
        !(content matches LineContent::Directive { kind: DirectiveKind::Addr, .. }),
    ensures
        (spec_place_content(state, content)->Ok_0).cursor >= state.cursor,
{
    match content {
        LineContent::Instruction { .. } => {
            assert(state.cursor != u64::MAX);
        },
        LineContent::Directive { kind: DirectiveKind::Word, .. } => {
            assert(state.cursor != u64::MAX);
        },
        LineContent::Directive {
            kind: DirectiveKind::Space,
            argument: DirectiveArgument::Expression(e),
        } => {
            let n = spec_eval_directive(e, DirectiveKind::Space)->Ok_0;
            lemma_write_reserved_monotone(state.memory, state.cursor, n as nat);
        },
        LineContent::Directive {
            kind: DirectiveKind::String,
            argument: DirectiveArgument::StringLiteral(lit),
        } => {
            lemma_write_chars_monotone(state.memory, state.cursor, lit@, 0);
        },
        _ => {},
    }
}


/// Law, at the level of one line: a successful `.string "s"` placement
/// that stays below the top of the address space succeeds exactly when
/// the range `cursor..cursor + n` is free, where `n` is the number of
/// Unicode scalars of `s` — not bytes, not code units. It fills exactly
/// that range, the cell at `cursor + k` holding the `k`-th scalar,
/// touches no other cell and no label, and leaves the cursor at
/// `cursor + n`.
pub proof fn lemma_place_string_law(state: LayoutState, lit: String)
    requires
        state.cursor + lit@.len() <= u64::MAX,
    ensures
        (spec_place_content(
            state,
            LineContent::Directive {
                kind: DirectiveKind::String,
                argument: DirectiveArgument::StringLiteral(lit),
            },
        ) is Ok) <==> (forall|a: Address|
            state.cursor <= a < state.cursor + lit@.len() ==> !state.memory.contains_key(a)),
        spec_place_content(
            state,
            LineContent::Directive {
                kind: DirectiveKind::String,
                argument: DirectiveArgument::StringLiteral(lit),
            },
        ) matches Ok(st2) ==> {
            &&& st2.cursor == state.cursor + lit@.len()
            &&& st2.labels == state.labels
            &&& forall|a: Address|
                state.cursor <= a < state.cursor + lit@.len()
                    ==> #[trigger] st2.memory.contains_key(a) && st2.memory[a] == Placement::Char(
                    char_at(lit@, (a - state.cursor) as nat),
                )
            &&& forall|a: Address|
                !(state.cursor <= a < state.cursor + lit@.len()) ==> (
                #[trigger] st2.memory.contains_key(a) <==> state.memory.contains_key(a)) && (
                state.memory.contains_key(a) ==> st2.memory[a] == state.memory[a])
        },
{
    lemma_write_chars_law(state.memory, state.cursor, lit@, 0);
}

/// Law, at the level of one line: a successful `.space` placement whose
/// size evaluates to `n` (never negative: the count is narrowed from a
/// non-negative value) and stays below the top of the address space
/// succeeds exactly when the range `cursor..cursor + n` is free, fills
/// exactly that range with reserved cells, touches no other cell and no
/// label, and leaves the cursor at `cursor + n`.
pub proof fn lemma_place_space_law(state: LayoutState, e: crate::expression::Node, n: Address)
    requires
        spec_eval_directive(e, DirectiveKind::Space) == Ok::<Address, LayoutErrorView>(n),
        state.cursor + n <= u64::MAX,
    ensures
        (spec_place_content(
            state,
            LineContent::Directive {
                kind: DirectiveKind::Space,
                argument: DirectiveArgument::Expression(e),
            },
        ) is Ok) <==> (forall|a: Address|
            state.cursor <= a < state.cursor + n ==> !state.memory.contains_key(a)),
        spec_place_content(
            state,
            LineContent::Directive {
                kind: DirectiveKind::Space,
                argument: DirectiveArgument::Expression(e),
            },
        ) matches Ok(st2) ==> {
            &&& st2.cursor == state.cursor + n
            &&& st2.labels == state.labels
            &&& forall|a: Address|
                state.cursor <= a < state.cursor + n ==> #[trigger] st2.memory.contains_key(a)
                    && st2.memory[a] == Placement::Reserved
            &&& forall|a: Address|
                !(state.cursor <= a < state.cursor + n) ==> (#[trigger] st2.memory.contains_key(a)
                    <==> state.memory.contains_key(a)) && (state.memory.contains_key(a)
                    ==> st2.memory[a] == state.memory[a])
        },
{
    lemma_write_reserved_law(state.memory, state.cursor, n as nat);
}

} // verus!

