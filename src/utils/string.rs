//! Decoding byte ranges of a buffer as UTF-8 text.
use std::ops::Range;
use vstd::prelude::*;
use vstd::string::*;
use vstd::utf8::*;
use crate::utils::range::IntoRange;

verus! {

broadcast use vstd::seq::group_seq_axioms;

/// `k` is the length of the longest prefix of `b` that is valid UTF-8.
pub open spec fn is_valid_up_to(b: Seq<u8>, k: int) -> bool {
    &&& partial_valid_utf8(b, k)
    &&& forall|j: int| k < j <= b.len() ==> !#[trigger] partial_valid_utf8(b, j)
}

/// The largest `k <= j` such that `b[..k]` is valid UTF-8.
pub open spec fn longest_valid_prefix(b: Seq<u8>, j: int) -> int
    decreases j,
{
    if j <= 0 {
        0
    } else if partial_valid_utf8(b, j) {
        j
    } else {
        longest_valid_prefix(b, j - 1)
    }
}

/// The length of the longest prefix of `b` that is valid UTF-8.
pub open spec fn valid_up_to(b: Seq<u8>) -> int {
    longest_valid_prefix(b, b.len() as int)
}

proof fn lemma_longest_valid_prefix(b: Seq<u8>, j: int, k: int)
    requires
        is_valid_up_to(b, k),
        k <= j <= b.len(),
    ensures
        longest_valid_prefix(b, j) == k,
    decreases j,
{
    if j > k {
        lemma_longest_valid_prefix(b, j - 1, k);
    }
}

proof fn lemma_longest_valid_prefix_is_max(b: Seq<u8>, j: int)
    requires
        0 <= j <= b.len(),
    ensures
        0 <= longest_valid_prefix(b, j) <= j,
        partial_valid_utf8(b, longest_valid_prefix(b, j)),
        forall|i: int| longest_valid_prefix(b, j) < i <= j ==> !#[trigger] partial_valid_utf8(b, i),
    decreases j,
{
    if j <= 0 {
        assert(b.subrange(0, 0) =~= Seq::<u8>::empty());
    } else if !partial_valid_utf8(b, j) {
        lemma_longest_valid_prefix_is_max(b, j - 1);
    }
}

/// Where `b` is not valid UTF-8, its longest valid prefix stops short of the
/// end, at a byte that is not ASCII.
pub proof fn lemma_valid_up_to_invalid(b: Seq<u8>)
    requires
        !valid_utf8(b),
    ensures
        0 <= valid_up_to(b) < b.len(),
        b[valid_up_to(b)] >= 0x80,
{
    let k = valid_up_to(b);
    lemma_longest_valid_prefix_is_max(b, b.len() as int);
    assert(b.subrange(0, b.len() as int) =~= b);
    if b[k] < 0x80 {
        assert forall|i: int| k <= i < k + 1 implies #[trigger] is_leading_byte_width_1(b[i]) by {}
        partial_valid_utf8_extend_ascii_block(b, k, k + 1);
    }
}

/// The longest valid prefix is the one that `valid_up_to` names.
pub proof fn lemma_valid_up_to_unique(b: Seq<u8>, k: int)
    requires
        is_valid_up_to(b, k),
    ensures
        valid_up_to(b) == k,
{
    lemma_longest_valid_prefix(b, b.len() as int, k);
}

/// Bytes below 0x80 alone always form valid UTF-8.
pub proof fn lemma_ascii_valid(b: Seq<u8>)
    requires
        forall|i: int| 0 <= i < b.len() ==> #[trigger] b[i] < 0x80,
    ensures
        valid_utf8(b),
{
    assert(b.subrange(0, 0) =~= Seq::<u8>::empty());
    assert(partial_valid_utf8(b, 0));
    assert forall|i: int| 0 <= i < b.len() implies #[trigger] is_leading_byte_width_1(b[i]) by {}
    partial_valid_utf8_extend_ascii_block(b, 0, b.len() as int);
    assert(b.subrange(0, b.len() as int) =~= b);
}

pub uninterp spec fn lossy_text(b: Seq<u8>) -> Seq<char>;

/// Relies on `String::from_utf8_lossy`: the text depends on the bytes alone,
/// and valid UTF-8 decodes as it does strictly.
#[verifier::external_body]
fn from_utf8_lossy(bytes: &[u8]) -> (r: String)
    ensures
        r@ == lossy_text(bytes@),
        valid_utf8(bytes@) ==> r@ == decode_utf8(bytes@),
{
    String::from_utf8_lossy(bytes).into_owned()
}

/// The text shown for `b`: its decoding where `b` is valid UTF-8, else the
/// decoding with each invalid sequence replaced.
pub open spec fn shown_text(b: Seq<u8>) -> Seq<char> {
    if valid_utf8(b) {
        decode_utf8(b)
    } else {
        lossy_text(b)
    }
}

/// Decodes `source[range]`, replacing each invalid sequence with U+FFFD.
pub fn substring_lossy(source: &[u8], range: Range<usize>) -> (r: String)
    requires
        range.start <= range.end <= source@.len(),
    ensures
        r@ == shown_text(source@.subrange(range.start as int, range.end as int)),
{
    from_utf8_lossy(vstd::slice::slice_subrange(source, range.start, range.end))
}

/// A decoding failure: the byte range asked for, and how many of its bytes
/// form valid UTF-8 before the first invalid sequence.
#[derive(Debug)]
pub struct SubstringError {
    pub valid_up_to: usize,
    pub range: Range<usize>,
}

/// Relies on `std::str::from_utf8`, which succeeds exactly on valid UTF-8 and
/// then yields the decoded text, and on `Utf8Error::valid_up_to`, the length of
/// the longest valid prefix of the input.
#[verifier::external_body]
fn from_utf8(bytes: &[u8]) -> (r: Result<String, usize>)
    ensures
        match r {
            Ok(s) => valid_utf8(bytes@) && s@ == decode_utf8(bytes@),
            Err(k) => !valid_utf8(bytes@) && is_valid_up_to(bytes@, k as int),
        },
{
    match std::str::from_utf8(bytes) {
        Ok(s) => Ok(s.to_string()),
        Err(e) => Err(e.valid_up_to()),
    }
}

/// Decodes `source[range]` as UTF-8 text.
pub fn substring(source: &[u8], range: Range<usize>) -> (r: Result<String, SubstringError>)
    requires
        range.start <= range.end <= source@.len(),
    ensures
        ({
            let b = source@.subrange(range.start as int, range.end as int);
            match r {
                Ok(s) => valid_utf8(b) && s@ == decode_utf8(b),
                Err(e) => {
                    &&& !valid_utf8(b)
                    &&& e.range == range
                    &&& e.valid_up_to == valid_up_to(b)
                    &&& e.valid_up_to < b.len()
                },
            }
        }),
{
    let part = vstd::slice::slice_subrange(source, range.start, range.end);
    match from_utf8(part) {
        Ok(s) => Ok(s),
        Err(k) => {
            proof {
                assert(part@.subrange(0, part@.len() as int) =~= part@);
                lemma_valid_up_to_unique(part@, k as int);
            }
            Err(SubstringError { valid_up_to: k, range })
        },
    }
}

/// `range` lies within a buffer of `len` bytes.
pub open spec fn within(range: Range<usize>, len: nat) -> bool {
    range.start <= range.end <= len
}

/// `r` is the decoding of `bytes[range]`, or the failure to decode it.
pub open spec fn decoded(bytes: Seq<u8>, range: Range<usize>, r: Result<String, SubstringError>) -> bool {
    let b = bytes.subrange(range.start as int, range.end as int);
    match r {
        Ok(s) => valid_utf8(b) && s@ == decode_utf8(b),
        Err(e) => !valid_utf8(b) && e.range == range && e.valid_up_to == valid_up_to(b),
    }
}

/// Text taken from a byte range of a buffer, given as any kind of range.
pub trait Substring<Rng: IntoRange<usize>> {
    /// The bytes that ranges index.
    spec fn source_bytes(&self) -> Seq<u8>;

    /// Decodes the bytes in `range` as UTF-8.
    fn substring(&self, range: Rng) -> (r: Result<String, SubstringError>)
        requires
            range.has_range(),
            within(
                range.spec_range(Range { start: 0, end: self.source_bytes().len() as usize }),
                self.source_bytes().len(),
            ),
        ensures
            decoded(
                self.source_bytes(),
                range.spec_range(Range { start: 0, end: self.source_bytes().len() as usize }),
                r,
            ),
    ;

    /// Decodes the bytes in `range`, replacing invalid sequences with U+FFFD.
    fn substring_lossy(&self, range: Rng) -> (r: String)
        requires
            range.has_range(),
            within(
                range.spec_range(Range { start: 0, end: self.source_bytes().len() as usize }),
                self.source_bytes().len(),
            ),
        ensures
            ({
                let b = range.spec_range(Range { start: 0, end: self.source_bytes().len() as usize });
                r@ == shown_text(self.source_bytes().subrange(b.start as int, b.end as int))
            }),
    ;
}

impl<Rng: IntoRange<usize>> Substring<Rng> for [u8] {
    open spec fn source_bytes(&self) -> Seq<u8> {
        self@
    }

    fn substring(&self, range: Rng) -> (r: Result<String, SubstringError>) {
        let range = range.into_range(0..self.len());
        substring(self, range)
    }

    fn substring_lossy(&self, range: Rng) -> (r: String) {
        let range = range.into_range(0..self.len());
        substring_lossy(self, range)
    }
}

impl<Rng: IntoRange<usize>> Substring<Rng> for str {
    open spec fn source_bytes(&self) -> Seq<u8> {
        self.spec_bytes()
    }

    fn substring(&self, range: Rng) -> (r: Result<String, SubstringError>) {
        let bytes = self.as_bytes();
        let range = range.into_range(0..bytes.len());
        substring(bytes, range)
    }

    fn substring_lossy(&self, range: Rng) -> (r: String) {
        let bytes = self.as_bytes();
        let range = range.into_range(0..bytes.len());
        substring_lossy(bytes, range)
    }
}

} // verus!
