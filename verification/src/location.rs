//! Source spans attached to parsed nodes.
//!
//! While parsing, every node records where it came from as a span relative
//! to its immediate parent slice: an `(offset, length)` pair counted in
//! Unicode scalars. A single post-pass can rebase such spans against an
//! absolute parent span, so that diagnostics can point back into the
//! original text.

use vstd::prelude::*;

verus! {

/// A source span: `offset` scalars from the start of the enclosing slice,
/// covering `length` scalars.
#[derive(Clone, Copy, Debug, PartialEq, Eq, Structural)]
pub struct Span {
    pub offset: usize,
    pub length: usize,
}

impl Span {
    /// The empty span at the origin, used where a node does not track a
    /// meaningful position of its own.
    pub fn zero() -> (r: Span)
        ensures
            r == (Span { offset: 0, length: 0 }),
    {
        Span { offset: 0, length: 0 }
    }

    /// Spec-level rebasing of a relative span against an absolute parent
    /// span: the child's offset is counted from the parent's start.
    /// Offsets beyond the address range of `usize` saturate.
    pub open spec fn spec_rebase(self, parent: Span) -> Span {
        Span {
            offset: if parent.offset + self.offset <= usize::MAX {
                (parent.offset + self.offset) as usize
            } else {
                usize::MAX as usize
            },
            length: self.length,
        }
    }

    /// Rebase this parent-relative span into the frame the parent span is
    /// expressed in.
    pub fn rebase(self, parent: &Span) -> (r: Span)
        ensures
            r == self.spec_rebase(*parent),
    {
        if self.offset <= usize::MAX - parent.offset {
            Span { offset: parent.offset + self.offset, length: self.length }
        } else {
            Span { offset: usize::MAX, length: self.length }
        }
    }
}

/// Whether `child` lies entirely within `parent`.
pub open spec fn span_within(child: Span, parent: Span) -> bool {
    parent.offset <= child.offset && child.offset + child.length <= parent.offset + parent.length
}

/// Law: rebasing nests spans. A relative span that fits within its
/// parent's extent rebases to an absolute span contained in the parent,
/// keeps its length, and its absolute offset is the parent's offset plus
/// the relative one — concatenating relative offsets down from the root
/// reproduces the absolute offset.
pub proof fn lemma_rebase_within(child: Span, parent: Span)
    requires
        child.offset + child.length <= parent.length,
        parent.offset + parent.length <= usize::MAX,
    ensures
        span_within(child.spec_rebase(parent), parent),
        child.spec_rebase(parent).length == child.length,
        child.spec_rebase(parent).offset == parent.offset + child.offset,
{
}

/// A value together with the span it was parsed from.
#[derive(Clone, Debug, PartialEq)]
pub struct Located<T> {
    pub inner: T,
    pub location: Span,
}

impl<T> Located<T> {
    /// Wrap `inner` with an explicit span.
    pub fn new(inner: T, offset: usize, length: usize) -> (r: Located<T>)
        ensures
            r.inner == inner,
            r.location == (Span { offset, length }),
    {
        Located { inner, location: Span { offset, length } }
    }

    /// Wrap `inner` with the empty span.
    pub fn bare(inner: T) -> (r: Located<T>)
        ensures
            r.inner == inner,
            r.location == (Span { offset: 0, length: 0 }),
    {
        Located { inner, location: Span { offset: 0, length: 0 } }
    }
}

} // verus!
