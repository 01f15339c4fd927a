//! Source locations with a half-open line range.
use std::ops::Range;
use vstd::prelude::*;
use crate::src::{line_end, line_of, line_start, locate};

verus! {

/// A position in the source, both parts counted from 0.
#[derive(Debug)]
pub struct SrcPos {
    pub line: usize,
    pub column: usize,
}

/// A source location: a byte offset, or once resolved, its position and the
/// half-open byte range of its line (terminators excluded).
#[derive(Debug)]
pub enum SrcLoc {
    Created { offset: usize },
    Resolved { offset: SrcPos, line: Range<usize> },
}

/// `after` is `before` resolved against `src`; a resolved location stays as
/// it is.
pub open spec fn src_loc_resolved(before: SrcLoc, after: SrcLoc, src: Seq<u8>) -> bool {
    match before {
        SrcLoc::Created { offset } => match after {
            SrcLoc::Resolved { offset: pos, line } => {
                &&& pos.line == line_of(src, offset as int)
                &&& pos.column == offset - line_start(src, offset as int)
                &&& line.start == line_start(src, offset as int)
                &&& line.end == line_end(src, offset as int) + 1
            },
            _ => false,
        },
        _ => after == before,
    }
}

impl SrcLoc {
    /// Resolves the offset against `source`; a resolved location stays as it is.
    pub fn resolve(&mut self, source: &[u8])
        requires
            match *old(self) {
                SrcLoc::Created { offset } => offset <= source@.len(),
                _ => true,
            },
        ensures
            src_loc_resolved(*old(self), *final(self), source@),
    {
        if let SrcLoc::Created { offset } = *self {
            let (line, start, after) = locate(source, offset);
            *self = SrcLoc::Resolved {
                offset: SrcPos { line, column: offset - start },
                line: Range { start, end: after },
            };
        }
    }
}

/// Values that hold source locations.
pub trait ResolveLoc: Sized {
    /// Every location held can be resolved against `source`.
    spec fn loc_resolvable_in(&self, source: Seq<u8>) -> bool;

    /// `after` is `self` with every location resolved against `source`.
    spec fn loc_resolved_into(&self, after: Self, source: Seq<u8>) -> bool;

    fn resolve_loc(&mut self, source: &[u8])
        requires
            old(self).loc_resolvable_in(source@),
        ensures
            old(self).loc_resolved_into(*final(self), source@),
    ;
}

impl ResolveLoc for SrcLoc {
    open spec fn loc_resolvable_in(&self, source: Seq<u8>) -> bool {
        match *self {
            SrcLoc::Created { offset } => offset <= source.len(),
            _ => true,
        }
    }

    open spec fn loc_resolved_into(&self, after: Self, source: Seq<u8>) -> bool {
        src_loc_resolved(*self, after, source)
    }

    fn resolve_loc(&mut self, source: &[u8]) {
        self.resolve(source)
    }
}

impl<T: ResolveLoc> ResolveLoc for Vec<T> {
    open spec fn loc_resolvable_in(&self, source: Seq<u8>) -> bool {
        forall|i: int| 0 <= i < self@.len() ==> #[trigger] self@[i].loc_resolvable_in(source)
    }

    open spec fn loc_resolved_into(&self, after: Self, source: Seq<u8>) -> bool {
        &&& after@.len() == self@.len()
        &&& forall|i: int|
            0 <= i < self@.len() ==> #[trigger] self@[i].loc_resolved_into(after@[i], source)
    }

    fn resolve_loc(&mut self, source: &[u8]) {
        let mut i: usize = 0;
        while i < self.len()
            invariant
                self@.len() == old(self)@.len(),
                i <= self@.len(),
                forall|j: int| 0 <= j < i ==> #[trigger] old(self)@[j].loc_resolved_into(self@[j], source@),
                forall|j: int| i <= j < self@.len() ==> #[trigger] self@[j] == old(self)@[j],
                forall|j: int| 0 <= j < old(self)@.len() ==> #[trigger] old(self)@[j].loc_resolvable_in(source@),
            decreases self@.len() - i,
        {
            self[i].resolve_loc(source);
            i = i + 1;
        }
    }
}

} // verus!
