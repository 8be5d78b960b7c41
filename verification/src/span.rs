//! Byte ranges inside source files.

use vstd::prelude::*;

use crate::source::FileId;

verus! {

/// Mathematical model of a [`Span`]: a half-open byte range `[start, end)` of one file.
pub struct SpanView {
    pub file: FileId,
    pub start: nat,
    pub end: nat,
}

impl SpanView {
    /// A span never ends before it starts.
    pub open spec fn wf(self) -> bool {
        self.start <= self.end
    }

    /// Number of bytes covered.
    pub open spec fn len(self) -> nat {
        (self.end - self.start) as nat
    }

    /// Whether the byte at `pos` lies inside the range.
    pub open spec fn contains(self, pos: nat) -> bool {
        self.start <= pos < self.end
    }

    /// The union of two ranges of one file: from the smaller start to the larger end.
    pub open spec fn merge(self, other: SpanView) -> SpanView {
        SpanView {
            file: self.file,
            start: if self.start <= other.start { self.start } else { other.start },
            end: if self.end >= other.end { self.end } else { other.end },
        }
    }
}

/// A half-open byte range `[start, end)` inside one registered source file.
///
/// The range is never inverted: `start <= end` holds of every value. Spans are ordered by
/// file, then by start, then by end.
#[derive(Copy, Clone, Eq, PartialEq, Ord, PartialOrd, Hash, Debug, Structural)]
pub struct Span {
    file: FileId,
    start: u32,
    end: u32,
}

impl View for Span {
    type V = SpanView;

    closed spec fn view(&self) -> SpanView {
        SpanView { file: self.file, start: self.start as nat, end: self.end as nat }
    }
}

impl Span {
    #[verifier::type_invariant]
    closed spec fn ordered(self) -> bool {
        self.start <= self.end
    }

    /// The range `[start, end)` of `file`.
    #[must_use]
    pub fn new(file: FileId, start: u32, end: u32) -> (span: Span)
        requires
            start <= end,
        ensures
            span@ == (SpanView { file, start: start as nat, end: end as nat }),
    {
        Span { file, start, end }
    }

    /// The zero-width range at `offset` of `file`.
    #[must_use]
    pub fn at(file: FileId, offset: u32) -> (span: Span)
        ensures
            span@ == (SpanView { file, start: offset as nat, end: offset as nat }),
    {
        Span { file, start: offset, end: offset }
    }

    /// The file that the range lies in.
    #[must_use]
    pub fn file(self) -> (file: FileId)
        ensures
            file == self@.file,
    {
        self.file
    }

    /// Offset of the first byte.
    #[must_use]
    pub fn start(self) -> (start: u32)
        ensures
            start == self@.start,
    {
        self.start
    }

    /// Offset just behind the last byte.
    #[must_use]
    pub fn end(self) -> (end: u32)
        ensures
            end == self@.end,
            self@.wf(),
    {
        proof {
            use_type_invariant(&self);
        }
        self.end
    }

    /// Length in bytes.
    #[must_use]
    pub fn len(self) -> (len: u32)
        ensures
            self@.wf(),
            len == self@.len(),
    {
        proof {
            use_type_invariant(&self);
        }
        self.end - self.start
    }

    /// Whether the range covers no byte.
    #[must_use]
    pub fn is_empty(self) -> (empty: bool)
        ensures
            empty <==> self@.start == self@.end,
    {
        self.start == self.end
    }

    /// The smallest range that covers both `self` and `other`, which must lie in the same
    /// file. The two need not touch, nor come in any order.
    #[must_use]
    pub fn merge(self, other: Span) -> (merged: Span)
        requires
            self@.file == other@.file,
        ensures
            merged@ == self@.merge(other@),
    {
        proof {
            use_type_invariant(&self);
            use_type_invariant(&other);
        }
        Span {
            file: self.file,
            start: if self.start < other.start { self.start } else { other.start },
            end: if self.end > other.end { self.end } else { other.end },
        }
    }

    /// The bytes of `src` that the range covers.
    #[must_use]
    pub fn as_str<'a>(&self, src: &'a [u8]) -> (text: &'a [u8])
        requires
            self@.end <= src@.len(),
        ensures
            text@ == src@.subrange(self@.start as int, self@.end as int),
    {
        proof {
            use_type_invariant(self);
        }
        &src[self.start as usize..self.end as usize]
    }
}

/// Merging is commutative, and the result starts at the smaller of the two starts and ends
/// at the larger of the two ends.
pub proof fn lemma_merge_commutative(a: SpanView, b: SpanView)
    requires
        a.file == b.file,
    ensures
        a.merge(b) == b.merge(a),
        a.merge(b).start == vstd::math::min(a.start as int, b.start as int),
        a.merge(b).end == vstd::math::max(a.end as int, b.end as int),
{
}

/// A merged span covers both of its inputs and is itself well formed.
pub proof fn lemma_merge_covers(a: SpanView, b: SpanView)
    requires
        a.wf(),
        b.wf(),
    ensures
        a.merge(b).wf(),
        a.merge(b).start <= a.start && a.end <= a.merge(b).end,
        a.merge(b).start <= b.start && b.end <= a.merge(b).end,
{
}

} // verus!
