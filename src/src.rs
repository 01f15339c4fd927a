//! Diagnostic locators: byte offsets resolved lazily into line, column and a
//! rendered snippet of the source line.
use std::ops::RangeInclusive;
use text_colorizer::Colorize;
use vstd::prelude::*;
use vstd::string::*;
use crate::utils::string::{shown_text, substring_lossy};

verus! {

/// A position in the source, both parts counted from 0.
#[derive(Debug, Clone, Copy, PartialEq, Eq, Structural)]
pub struct Position {
    pub line: usize,
    pub column: usize,
}

/// The number of line feeds among the first `k` bytes of `src`.
pub open spec fn line_of(src: Seq<u8>, k: int) -> int
    decreases k,
{
    if k <= 0 {
        0
    } else {
        line_of(src, k - 1) + if src[k - 1] == '\n' as u8 {
            1int
        } else {
            0
        }
    }
}

/// The index just past the last line feed before `k`, or 0.
pub open spec fn line_start(src: Seq<u8>, k: int) -> int
    decreases k,
{
    if k <= 0 {
        0
    } else if src[k - 1] == '\n' as u8 {
        k
    } else {
        line_start(src, k - 1)
    }
}

/// The inclusive end of the line that holds `i`, found by scanning forward:
/// a carriage return ends the line before it, a line feed before it or, after
/// a carriage return, before that; without either the line runs to the end.
pub open spec fn line_end(src: Seq<u8>, i: int) -> int
    decreases src.len() - i,
{
    if i >= src.len() {
        src.len() - 1
    } else if src[i] == '\r' as u8 {
        i - 1
    } else if src[i] == '\n' as u8 {
        if i > 0 && src[i - 1] == '\r' as u8 {
            i - 2
        } else {
            i - 1
        }
    } else {
        line_end(src, i + 1)
    }
}

/// Offsets that can be resolved: within the buffer or just past it, with a
/// line whose inclusive end is an index, and a 1-based line number that fits.
pub open spec fn resolvable(src: Seq<u8>, offset: int) -> bool {
    &&& 0 <= offset <= src.len()
    &&& line_end(src, offset) >= 0
    &&& line_of(src, offset) < usize::MAX
}

pub(crate) proof fn lemma_line_of(src: Seq<u8>, k: int)
    requires
        0 <= k,
    ensures
        0 <= line_of(src, k) <= k,
    decreases k,
{
    if k > 0 {
        lemma_line_of(src, k - 1);
    }
}

proof fn lemma_line_start(src: Seq<u8>, k: int)
    requires
        0 <= k,
    ensures
        0 <= line_start(src, k) <= k,
        k > 0 && src[k - 1] != '\n' as u8 ==> line_start(src, k) <= k - 1,
    decreases k,
{
    if k > 0 {
        lemma_line_start(src, k - 1);
    }
}

pub(crate) proof fn lemma_line_end(src: Seq<u8>, i: int)
    requires
        0 <= i <= src.len(),
    ensures
        line_end(src, i) < src.len(),
        line_end(src, i) >= i - 1 || (i > 0 && src[i - 1] == '\r' as u8 && line_end(src, i)
            == i - 2),
    decreases src.len() - i,
{
    if i < src.len() && src[i] != '\r' as u8 && src[i] != '\n' as u8 {
        lemma_line_end(src, i + 1);
    }
}

/// A diagnostic location: a byte offset, or the position and the inclusive
/// byte range of its line (terminators excluded) once resolved.
#[derive(Debug, PartialEq)]
pub enum Location {
    Created { offset: usize },
    Resolved { pos: Position, line: RangeInclusive<usize> },
}

/// `loc` is `offset` resolved against `src`.
pub open spec fn resolved_at(loc: Location, src: Seq<u8>, offset: int) -> bool {
    match loc {
        Location::Resolved { pos, line } => {
            &&& pos.line == line_of(src, offset)
            &&& pos.column == offset - line_start(src, offset)
            &&& line@.start == line_start(src, offset)
            &&& line@.end == line_end(src, offset)
            &&& !line@.exhausted
        },
        _ => false,
    }
}

/// `n` in decimal digits.
pub open spec fn decimal(n: nat) -> Seq<char>
    decreases n,
{
    if n < 10 {
        seq![((n + 48) as u8) as char]
    } else {
        decimal(n / 10).push((((n % 10) + 48) as u8) as char)
    }
}

pub open spec fn spaces(n: nat) -> Seq<char> {
    Seq::new(n, |i: int| ' ')
}

/// The two-line snippet: the 1-based line number, ` | ` and the line's text;
/// then spaces up to the column of the offending byte, and the caret mark.
pub open spec fn rendered(line_no: nat, code: Seq<char>, column: nat, caret: Seq<char>) -> Seq<
    char,
> {
    decimal(line_no) + seq![' ', '|', ' '] + code + seq!['\n'] + spaces(
        decimal(line_no).len() + 3 + column,
    ) + caret
}

/// A caret mark: `^`, maybe wrapped in terminal colour codes.
pub open spec fn is_caret(c: Seq<char>) -> bool {
    exists|a: Seq<char>, b: Seq<char>| c == a + seq!['^'] + b
}

/// Relies on `RangeInclusive::start`: the lower bound, while the range is not
/// exhausted.
pub assume_specification<Idx>[ RangeInclusive::<Idx>::start ](r: &RangeInclusive<Idx>) -> (b: &Idx)
    ensures
        !r@.exhausted ==> *b == r@.start,
;

/// Relies on `RangeInclusive::end`: the upper bound, while the range is not
/// exhausted.
pub assume_specification<Idx>[ RangeInclusive::<Idx>::end ](r: &RangeInclusive<Idx>) -> (b: &Idx)
    ensures
        !r@.exhausted ==> *b == r@.end,
;

/// Relies on `String::push`: appends one character.
#[verifier::external_body]
pub(crate) fn push_char(s: &mut String, c: char)
    ensures
        final(s)@ == old(s)@.push(c),
{
    s.push(c)
}

/// Relies on text_colorizer's `red` and `bold` and the `Display` of the coloured
/// string, applied to `^`: the mark comes back bare where colour is off (by the
/// environment or because output is no terminal), else between an escape code
/// and a reset.
#[verifier::external_body]
fn red_bold_caret() -> (r: String)
    ensures
        is_caret(r@),
{
    "^".red().bold().to_string()
}

/// `n` in decimal digits.
pub fn decimal_string(n: usize) -> (r: String)
    ensures
        r@ == decimal(n as nat),
    decreases n,
{
    if n < 10 {
        let mut s = String::new();
        push_char(&mut s, ((n as u8) + 48) as char);
        s
    } else {
        let mut s = decimal_string(n / 10);
        push_char(&mut s, (((n % 10) as u8) + 48) as char);
        s
    }
}

/// The number of decimal digits of `n`.
fn decimal_width(n: usize) -> (r: usize)
    ensures
        r == decimal(n as nat).len(),
        r <= n + 1,
    decreases n,
{
    if n < 10 {
        1
    } else {
        decimal_width(n / 10) + 1
    }
}

/// Renders the snippet of line `line_no` (1-based), whose text is `code`, with
/// `caret` under byte `column` of the line.
pub fn render_snippet(line_no: usize, code: &str, column: usize, caret: &str) -> (r: String)
    ensures
        r@ == rendered(line_no as nat, code@, column as nat, caret@),
{
    let mut s = decimal_string(line_no);
    push_char(&mut s, ' ');
    push_char(&mut s, '|');
    push_char(&mut s, ' ');
    s.append(code);
    push_char(&mut s, '\n');
    let ghost head = s@;
    let width = decimal_width(line_no);
    let mut j: usize = 0;
    while j < width
        invariant
            s@ == head + spaces(j as nat),
            j <= width,
        decreases width - j,
    {
        push_char(&mut s, ' ');
        j = j + 1;
        assert(s@ =~= head + spaces(j as nat));
    }
    push_char(&mut s, ' ');
    push_char(&mut s, ' ');
    push_char(&mut s, ' ');
    assert(s@ =~= head + spaces((width + 3) as nat));
    let mut i: usize = 0;
    while i < column
        invariant
            s@ == head + spaces((width + 3 + i) as nat),
            i <= column,
        decreases column - i,
    {
        push_char(&mut s, ' ');
        i = i + 1;
        assert(s@ =~= head + spaces((width + 3 + i) as nat));
    }
    s.append(caret);
    assert(s@ =~= rendered(line_no as nat, code@, column as nat, caret@));
    s
}

/// The line of `offset` in `source`, the start of that line, and the index
/// just past its end (terminators excluded).
pub fn locate(source: &[u8], offset: usize) -> (r: (usize, usize, usize))
    requires
        offset <= source@.len(),
    ensures
        r.0 == line_of(source@, offset as int),
        r.1 == line_start(source@, offset as int),
        r.2 == line_end(source@, offset as int) + 1,
        r.1 <= offset,
{
    let ghost src = source@;
    let mut line: usize = 0;
    let mut start: usize = 0;
    let mut i: usize = 0;
    while i < offset
        invariant
            offset <= src.len(),
            src == source@,
            i <= offset,
            line == line_of(src, i as int),
            start == line_start(src, i as int),
        decreases offset - i,
    {
        proof {
            lemma_line_of(src, i as int);
        }
        if source[i] == '\n' as u8 {
            line = line + 1;
            start = i + 1;
        }
        i = i + 1;
    }
    proof {
        lemma_line_start(src, offset as int);
    }
    let mut after: usize = source.len();
    let mut found = false;
    let mut k: usize = offset;
    while !found && k < source.len()
        invariant
            src == source@,
            offset <= k <= src.len(),
            found ==> after == line_end(src, offset as int) + 1,
            !found ==> line_end(src, k as int) == line_end(src, offset as int),
            !found ==> after == src.len(),
        decreases src.len() - k + if found { 0int } else { 1 },
    {
        if source[k] == '\r' as u8 {
            after = k;
            found = true;
        } else if source[k] == '\n' as u8 {
            if k > 0 && source[k - 1] == '\r' as u8 {
                after = k - 1;
            } else {
                after = k;
            }
            found = true;
        } else {
            k = k + 1;
        }
    }
    (line, start, after)
}

impl Location {
    /// An unresolved location at `offset`.
    pub fn new(offset: usize) -> (r: Location)
        ensures
            r == (Location::Created { offset }),
    {
        Location::Created { offset }
    }

    /// Resolves the offset into its position and the range of its line; a
    /// resolved location stays as it is.
    pub fn resolve(&mut self, source: &[u8])
        requires
            match *old(self) {
                Location::Created { offset } => resolvable(source@, offset as int),
                _ => true,
            },
        ensures
            match *old(self) {
                Location::Created { offset } => resolved_at(*final(self), source@, offset as int),
                _ => *final(self) == *old(self),
            },
    {
        if let Location::Created { offset } = *self {
            let (line, start, after) = locate(source, offset);
            *self = Location::Resolved {
                pos: Position { line, column: offset - start },
                line: RangeInclusive::new(start, after - 1),
            };
        }
    }

    /// How the location is shown: `byte N` before resolution, `line L:C`
    /// after, all counted from 1.
    pub open spec fn spec_text(&self) -> Seq<char> {
        match *self {
            Location::Created { offset } => "byte "@ + decimal((offset + 1) as nat),
            Location::Resolved { pos, .. } => "line "@ + decimal((pos.line + 1) as nat) + ":"@
                + decimal((pos.column + 1) as nat),
        }
    }

    /// How the location is shown.
    pub fn text(&self) -> (r: String)
        requires
            match *self {
                Location::Created { offset } => offset < usize::MAX,
                Location::Resolved { pos, .. } => pos.line < usize::MAX && pos.column < usize::MAX,
            },
        ensures
            r@ == self.spec_text(),
    {
        let mut s = String::new();
        match self {
            Location::Created { offset } => {
                s.append("byte ");
                let n = decimal_string(*offset + 1);
                s.append(n.as_str());
            },
            Location::Resolved { pos, .. } => {
                s.append("line ");
                let l = decimal_string(pos.line + 1);
                s.append(l.as_str());
                s.append(":");
                let c = decimal_string(pos.column + 1);
                s.append(c.as_str());
            },
        }
        s
    }

    /// The rendered snippet of a resolved location; none before resolution.
    pub fn snippet(&self, source: &[u8]) -> (r: Option<String>)
        requires
            self is Resolved ==> {
                let line = self->Resolved_line;
                &&& !line@.exhausted
                &&& line@.start <= line@.end + 1
                &&& line@.end < source@.len()
                &&& self->Resolved_pos.line < usize::MAX
            },
        ensures
            self is Created ==> r is None,
            self is Resolved ==> {
                let (pos, line) = (self->Resolved_pos, self->Resolved_line);
                &&& r is Some
                &&& exists|caret: Seq<char>|
                    is_caret(caret) && r->Some_0@ == rendered(
                        pos.line as nat + 1,
                        shown_text(source@.subrange(line@.start as int, line@.end + 1)),
                        pos.column as nat,
                        caret,
                    )
            },
    {
        if let Location::Resolved { ref pos, ref line } = *self {
            let _ = source.len();
            let end = *line.end();
            let code = substring_lossy(source, *line.start()..end + 1);
            let caret = red_bold_caret();
            let text = render_snippet(pos.line + 1, code.as_str(), pos.column, caret.as_str());
            assert(is_caret(caret@) && text@ == rendered(
                pos.line as nat + 1,
                shown_text(source@.subrange(line@.start as int, line@.end + 1)),
                pos.column as nat,
                caret@,
            ));
            Some(text)
        } else {
            None
        }
    }
}

/// `text` is the snippet rendered for `offset` in `src`, with some caret mark.
pub open spec fn snippet_text(src: Seq<u8>, offset: int, text: Seq<char>) -> bool {
    exists|caret: Seq<char>|
        is_caret(caret) && text == rendered(
            (line_of(src, offset) + 1) as nat,
            shown_text(src.subrange(line_start(src, offset), line_end(src, offset) + 1)),
            (offset - line_start(src, offset)) as nat,
            caret,
        )
}

/// A diagnostic locator: the byte offset of the offending input and, once
/// resolved, the rendered snippet.
#[derive(Debug, PartialEq)]
pub struct Snippet {
    pub offset: usize,
    pub code: Option<String>,
}

/// `after` is `before` resolved against `src`: a locator that holds its text
/// stays as it is; otherwise it gains the snippet rendered for its offset.
pub open spec fn resolved_snippet(before: Snippet, after: Snippet, src: Seq<u8>) -> bool {
    match before.code {
        Some(_) => after == before,
        None => {
            &&& after.offset == before.offset
            &&& after.code is Some
            &&& snippet_text(src, before.offset as int, after.code->Some_0@)
        },
    }
}

impl Snippet {
    /// An unresolved locator at `offset`.
    pub fn new(offset: usize) -> (r: Snippet)
        ensures
            r == (Snippet { offset, code: None }),
    {
        Snippet { offset, code: None }
    }

    /// How the locator is shown: its snippet once resolved, else nothing.
    pub fn text(&self) -> (r: String)
        ensures
            r@ == match self.code {
                Some(code) => code@,
                None => Seq::<char>::empty(),
            },
    {
        match &self.code {
            Some(code) => code.clone(),
            None => String::new(),
        }
    }

    /// Renders the snippet for the offset, unless it is there already.
    pub fn resolve(&mut self, source: &[u8])
        requires
            old(self).code is None ==> resolvable(source@, old(self).offset as int),
        ensures
            resolved_snippet(*old(self), *final(self), source@),
    {
        if self.code.is_none() {
            let ghost src = source@;
            let ghost off = self.offset as int;
            let mut loc = Location::new(self.offset);
            loc.resolve(source);
            proof {
                lemma_line_start(src, off);
                lemma_line_end(src, off);
            }
            self.code = loc.snippet(source);
        }
    }
}

/// Values that hold diagnostic locators, which can all be resolved against
/// the source they were found in.
pub trait ResolveSnippet: Sized {
    /// Every unresolved locator held can be resolved against `source`.
    spec fn resolvable_in(&self, source: Seq<u8>) -> bool;

    /// `after` is `self` with every locator resolved against `source`.
    spec fn resolved_into(&self, after: Self, source: Seq<u8>) -> bool;

    fn resolve_snippet(&mut self, source: &[u8])
        requires
            old(self).resolvable_in(source@),
        ensures
            old(self).resolved_into(*final(self), source@),
    ;
}

impl<T: ResolveSnippet> ResolveSnippet for Vec<T> {
    open spec fn resolvable_in(&self, source: Seq<u8>) -> bool {
        forall|i: int| 0 <= i < self@.len() ==> #[trigger] self@[i].resolvable_in(source)
    }

    open spec fn resolved_into(&self, after: Self, source: Seq<u8>) -> bool {
        &&& after@.len() == self@.len()
        &&& forall|i: int|
            0 <= i < self@.len() ==> #[trigger] self@[i].resolved_into(after@[i], source)
    }

    fn resolve_snippet(&mut self, source: &[u8]) {
        let mut i: usize = 0;
        while i < self.len()
            invariant
                self@.len() == old(self)@.len(),
                i <= self@.len(),
                forall|j: int| 0 <= j < i ==> #[trigger] old(self)@[j].resolved_into(self@[j], source@),
                forall|j: int| i <= j < self@.len() ==> #[trigger] self@[j] == old(self)@[j],
                forall|j: int| 0 <= j < old(self)@.len() ==> #[trigger] old(self)@[j].resolvable_in(source@),
            decreases self@.len() - i,
        {
            self[i].resolve_snippet(source);
            i = i + 1;
        }
    }
}

/// Resolves the locators of values against one source buffer.
pub struct SnippetResolver<'a> {
    source: &'a [u8],
}

impl<'a> SnippetResolver<'a> {
    /// The buffer that locators are resolved against.
    pub closed spec fn bytes(&self) -> Seq<u8> {
        self.source@
    }

    pub fn new(source: &'a [u8]) -> (r: Self)
        ensures
            r.bytes() == source@,
    {
        SnippetResolver { source }
    }

    /// `t` with every locator resolved.
    pub fn resolve<T: ResolveSnippet>(&self, t: T) -> (r: T)
        requires
            t.resolvable_in(self.bytes()),
        ensures
            t.resolved_into(r, self.bytes()),
    {
        let mut t = t;
        t.resolve_snippet(self.source);
        t
    }
}

/// Resolving a locator a second time leaves it as the first resolution made it.
pub proof fn lemma_resolve_idempotent(s0: Snippet, s1: Snippet, s2: Snippet, src: Seq<u8>)
    requires
        resolved_snippet(s0, s1, src),
        resolved_snippet(s1, s2, src),
    ensures
        s2 == s1,
{
}

} // verus!
