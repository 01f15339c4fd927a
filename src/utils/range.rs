//! Turning any kind of range into a half-open one.
use std::ops::{Range, RangeFrom, RangeFull, RangeInclusive, RangeTo};
use vstd::prelude::*;

verus! {

#[verifier::external_type_specification]
#[verifier::reject_recursive_types(Idx)]
pub struct ExRangeFrom<Idx>(RangeFrom<Idx>);

#[verifier::external_type_specification]
#[verifier::reject_recursive_types(Idx)]
pub struct ExRangeTo<Idx>(RangeTo<Idx>);

#[verifier::external_type_specification]
pub struct ExRangeFull(RangeFull);

/// Indices that have a successor.
pub trait RangeIndex: Sized {
    /// `self` has a successor.
    spec fn has_next(&self) -> bool;

    /// The successor of `self`.
    spec fn spec_next(&self) -> Self;

    fn next(&self) -> (r: Self)
        requires
            self.has_next(),
        ensures
            r == self.spec_next(),
    ;
}

impl RangeIndex for usize {
    open spec fn has_next(&self) -> bool {
        *self < usize::MAX
    }

    open spec fn spec_next(&self) -> usize {
        (*self + 1) as usize
    }

    fn next(&self) -> (r: usize) {
        *self + 1
    }
}

/// Ranges that can be written as a half-open range, given the range that an
/// unbounded side stands for.
pub trait IntoRange<Idx>: Sized {
    /// The range has a half-open form.
    spec fn has_range(&self) -> bool;

    /// The half-open form, where `unbounded` stands in for missing bounds.
    spec fn spec_range(&self, unbounded: Range<Idx>) -> Range<Idx>;

    fn into_range(self, unbounded: Range<Idx>) -> (r: Range<Idx>)
        requires
            self.has_range(),
        ensures
            r == self.spec_range(unbounded),
    ;
}

impl IntoRange<usize> for Range<usize> {
    open spec fn has_range(&self) -> bool {
        true
    }

    open spec fn spec_range(&self, unbounded: Range<usize>) -> Range<usize> {
        *self
    }

    fn into_range(self, unbounded: Range<usize>) -> (r: Range<usize>) {
        self
    }
}

impl IntoRange<usize> for RangeInclusive<usize> {
    open spec fn has_range(&self) -> bool {
        !self@.exhausted && self@.end < usize::MAX
    }

    open spec fn spec_range(&self, unbounded: Range<usize>) -> Range<usize> {
        Range { start: self@.start, end: (self@.end + 1) as usize }
    }

    fn into_range(self, unbounded: Range<usize>) -> (r: Range<usize>) {
        Range { start: *self.start(), end: self.end().next() }
    }
}

impl IntoRange<usize> for RangeFrom<usize> {
    open spec fn has_range(&self) -> bool {
        true
    }

    open spec fn spec_range(&self, unbounded: Range<usize>) -> Range<usize> {
        Range { start: self.start, end: unbounded.end }
    }

    fn into_range(self, unbounded: Range<usize>) -> (r: Range<usize>) {
        Range { start: self.start, end: unbounded.end }
    }
}

impl IntoRange<usize> for RangeTo<usize> {
    open spec fn has_range(&self) -> bool {
        true
    }

    open spec fn spec_range(&self, unbounded: Range<usize>) -> Range<usize> {
        Range { start: unbounded.start, end: self.end }
    }

    fn into_range(self, unbounded: Range<usize>) -> (r: Range<usize>) {
        Range { start: unbounded.start, end: self.end }
    }
}

impl IntoRange<usize> for RangeFull {
    open spec fn has_range(&self) -> bool {
        true
    }

    open spec fn spec_range(&self, unbounded: Range<usize>) -> Range<usize> {
        unbounded
    }

    fn into_range(self, unbounded: Range<usize>) -> (r: Range<usize>) {
        unbounded
    }
}

} // verus!
