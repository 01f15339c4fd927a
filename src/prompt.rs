//! The decisions of the interactive prompt: what one line of input asks for.
use vstd::prelude::*;
use vstd::string::*;

verus! {

/// What the prompt does with one line of input.
#[derive(Debug, Clone, Copy, PartialEq, Eq, Structural)]
pub enum PromptAction {
    /// Print the program's name and version.
    Version,
    /// Clear the screen.
    Clear,
    /// Leave the prompt.
    Exit,
    /// Scan the line as source text.
    Run,
}

/// A character with the Unicode `White_Space` property.
pub open spec fn is_white_space(c: char) -> bool {
    ('\u{9}' <= c <= '\u{d}') || c == ' ' || c == '\u{85}' || c == '\u{a0}' || c == '\u{1680}' || (
    '\u{2000}' <= c <= '\u{200a}') || c == '\u{2028}' || c == '\u{2029}' || c == '\u{202f}' || c
        == '\u{205f}' || c == '\u{3000}'
}

/// `t` is `s` without its leading and trailing white space.
pub open spec fn is_trimmed(s: Seq<char>, t: Seq<char>) -> bool {
    exists|i: int, j: int|
        0 <= i <= j <= s.len() && t == s.subrange(i, j) && (forall|k: int|
            0 <= k < i ==> is_white_space(#[trigger] s[k])) && (forall|k: int|
            j <= k < s.len() ==> is_white_space(#[trigger] s[k])) && (i < j ==> !is_white_space(s[i])
            && !is_white_space(s[j - 1]))
}

/// A text has one trimmed form: the contract of `prompt_action` names its
/// result exactly.
pub proof fn lemma_trimmed_unique(s: Seq<char>, t1: Seq<char>, t2: Seq<char>)
    requires
        is_trimmed(s, t1),
        is_trimmed(s, t2),
    ensures
        t1 == t2,
{
    let (i1, j1) = choose|i: int, j: int|
        0 <= i <= j <= s.len() && t1 == s.subrange(i, j) && (forall|k: int|
            0 <= k < i ==> is_white_space(#[trigger] s[k])) && (forall|k: int|
            j <= k < s.len() ==> is_white_space(#[trigger] s[k])) && (i < j ==> !is_white_space(s[i])
            && !is_white_space(s[j - 1]));
    let (i2, j2) = choose|i: int, j: int|
        0 <= i <= j <= s.len() && t2 == s.subrange(i, j) && (forall|k: int|
            0 <= k < i ==> is_white_space(#[trigger] s[k])) && (forall|k: int|
            j <= k < s.len() ==> is_white_space(#[trigger] s[k])) && (i < j ==> !is_white_space(s[i])
            && !is_white_space(s[j - 1]));
    if i1 == j1 || i2 == j2 {
        // One side is empty: then every character is white space, and so is
        // the other side empty.
        if i1 < j1 {
            assert(is_white_space(s[i1]));
        }
        if i2 < j2 {
            assert(is_white_space(s[i2]));
        }
        assert(t1 =~= t2);
    } else {
        if i1 < i2 {
            assert(is_white_space(s[i1]));
        }
        if i2 < i1 {
            assert(is_white_space(s[i2]));
        }
        if j1 < j2 {
            assert(is_white_space(s[j2 - 1]));
        }
        if j2 < j1 {
            assert(is_white_space(s[j1 - 1]));
        }
        assert(t1 =~= t2);
    }
}

/// Relies on `str::trim`: the text with leading and trailing characters of
/// the Unicode `White_Space` property removed.
#[verifier::external_body]
fn trim(s: &str) -> (r: &str)
    ensures
        is_trimmed(s@, r@),
{
    s.trim()
}

/// Whether two texts are equal.
fn same_text(a: &str, b: &str) -> (r: bool)
    ensures
        r == (a@ == b@),
{
    let n = a.unicode_len();
    if n != b.unicode_len() {
        return false;
    }
    let mut i: usize = 0;
    while i < n
        invariant
            n == a@.len(),
            n == b@.len(),
            i <= n,
            forall|k: int| 0 <= k < i ==> a@[k] == b@[k],
        decreases n - i,
    {
        if a.get_char(i) != b.get_char(i) {
            return false;
        }
        i = i + 1;
    }
    assert(a@ =~= b@);
    true
}

/// The action a trimmed line asks for.
pub open spec fn action_for(t: Seq<char>) -> PromptAction {
    if t == "version"@ {
        PromptAction::Version
    } else if t == "clear"@ {
        PromptAction::Clear
    } else if t == "exit"@ {
        PromptAction::Exit
    } else {
        PromptAction::Run
    }
}

/// What the prompt does with `line`: a command where the line, without its
/// surrounding white space, names one, else a run of the line.
pub fn prompt_action(line: &str) -> (r: PromptAction)
    ensures
        exists|t: Seq<char>| is_trimmed(line@, t) && r == action_for(t),
{
    let t = trim(line);
    let r = if same_text(t, "version") {
        PromptAction::Version
    } else if same_text(t, "clear") {
        PromptAction::Clear
    } else if same_text(t, "exit") {
        PromptAction::Exit
    } else {
        PromptAction::Run
    };
    assert(is_trimmed(line@, t@) && r == action_for(t@));
    r
}

} // verus!
