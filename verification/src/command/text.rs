//! Scanning the text that the commands print.
//!
//! The text is taken as a sequence of characters and read from a position
//! onward. What each scanner finds is stated as a function of the characters
//! and the position alone.

use vstd::prelude::*;
use vstd::string::{StrSliceExecFns, StringExecFns};

verus! {

/// Whether the character is blank: a space, a tab, a carriage return or a
/// line feed.
pub open spec fn is_space(c: char) -> bool {
    c == ' ' || c == '\t' || c == '\r' || c == '\n'
}

/// The first position from `i` on that holds no blank: `i` itself where it
/// holds none or lies outside the text.
pub open spec fn after_spaces(s: Seq<char>, i: int) -> int
    decreases s.len() - i,
{
    if 0 <= i < s.len() && is_space(s[i]) {
        after_spaces(s, i + 1)
    } else {
        i
    }
}

/// Whether `pattern` stands in the text at position `i`.
pub open spec fn stands_at(s: Seq<char>, i: int, pattern: Seq<char>) -> bool {
    0 <= i && i + pattern.len() <= s.len() && s.subrange(i, i + pattern.len()) == pattern
}

/// The first position from `i` on at which `pattern` stands, if there is one.
pub open spec fn find(s: Seq<char>, i: int, pattern: Seq<char>) -> Option<int>
    decreases s.len() - i,
{
    if i < 0 || i + pattern.len() > s.len() {
        None
    } else if stands_at(s, i, pattern) {
        Some(i)
    } else if i < s.len() {
        find(s, i + 1, pattern)
    } else {
        None
    }
}

/// The first position from `i` on that holds `stop` or lies behind the text.
pub open spec fn run_end(s: Seq<char>, i: int, stop: char) -> int
    decreases s.len() - i,
{
    if 0 <= i < s.len() && s[i] != stop {
        run_end(s, i + 1, stop)
    } else {
        i
    }
}

/// A position with the properties of `after_spaces` is `after_spaces`.
proof fn lemma_after_spaces_unique(s: Seq<char>, i: int, p: int)
    requires
        0 <= i <= p <= s.len(),
        forall|j: int| i <= j < p ==> is_space(#[trigger] s[j]),
        p < s.len() ==> !is_space(s[p]),
    ensures
        after_spaces(s, i) == p,
    decreases p - i,
{
    if i < p {
        assert(is_space(s[i]));
        lemma_after_spaces_unique(s, i + 1, p);
    }
}

/// `run_end` is the one position from `i` on before which nothing is `stop`
/// and which holds `stop` or ends the text.
proof fn lemma_run_end_unique(s: Seq<char>, i: int, stop: char, p: int)
    requires
        0 <= i <= p <= s.len(),
        forall|j: int| i <= j < p ==> #[trigger] s[j] != stop,
        p < s.len() ==> s[p] == stop,
    ensures
        run_end(s, i, stop) == p,
    decreases p - i,
{
    if i < p {
        assert(s[i] != stop);
        lemma_run_end_unique(s, i + 1, stop, p);
    }
}

/// Where `pattern` stands at `p` and at no position from `i` up to `p`, `p`
/// is what `find` finds.
proof fn lemma_find_unique(s: Seq<char>, i: int, pattern: Seq<char>, p: int)
    requires
        0 <= i <= p,
        stands_at(s, p, pattern),
        forall|j: int| i <= j < p ==> !stands_at(s, j, pattern),
    ensures
        find(s, i, pattern) == Some(p),
    decreases p - i,
{
    if i < p {
        lemma_find_unique(s, i + 1, pattern, p);
    }
}

/// Where `pattern` stands at no position from `i` on, `find` finds nothing.
proof fn lemma_find_none(s: Seq<char>, i: int, pattern: Seq<char>)
    requires
        0 <= i,
        forall|j: int| i <= j ==> !stands_at(s, j, pattern),
    ensures
        find(s, i, pattern) is None,
    decreases s.len() - i,
{
    if i + pattern.len() <= s.len() && i < s.len() {
        lemma_find_none(s, i + 1, pattern);
    }
}

/// The characters of a string, in their order.
pub fn chars_of(text: &str) -> (chars: Vec<char>)
    ensures
        chars@ == text@,
{
    let mut chars: Vec<char> = Vec::new();
    for c in it: text.chars()
        invariant
            chars@ == it.seq().take(it.index() as int),
            it.seq() == text@,
    {
        let ghost before = chars@;
        chars.push(c);
        assert(chars@ =~= it.seq().take(it.index() + 1));
    }
    assert(chars@ =~= text@);
    chars
}

/// Skips the blanks from `i` on.
pub(crate) fn skip_spaces(s: &Vec<char>, i: usize) -> (p: usize)
    requires
        i <= s.len(),
    ensures
        p == after_spaces(s@, i as int),
        i <= p <= s.len(),
{
    let mut p: usize = i;
    while p < s.len() && (s[p] == ' ' || s[p] == '\t' || s[p] == '\r' || s[p] == '\n')
        invariant
            i <= p <= s.len(),
            forall|j: int| i <= j < p ==> is_space(#[trigger] s@[j]),
        decreases s.len() - p,
    {
        p += 1;
    }
    proof {
        lemma_after_spaces_unique(s@, i as int, p as int);
    }
    p
}

/// Tells whether `pattern` stands at `i`.
pub(crate) fn matches_at(s: &Vec<char>, i: usize, pattern: &Vec<char>) -> (r: bool)
    requires
        i <= s.len(),
    ensures
        r == stands_at(s@, i as int, pattern@),
{
    if pattern.len() > s.len() - i {
        return false;
    }
    let mut k: usize = 0;
    while k < pattern.len()
        invariant
            k <= pattern.len(),
            i + pattern.len() <= s.len(),
            forall|j: int| 0 <= j < k ==> s@[i + j] == pattern@[j],
        decreases pattern.len() - k,
    {
        if s[i + k] != pattern[k] {
            assert(s@.subrange(i as int, i + pattern.len())[k as int] != pattern@[k as int]);
            return false;
        }
        k += 1;
    }
    assert(s@.subrange(i as int, i + pattern.len()) =~= pattern@);
    true
}

/// Finds the first position from `i` on at which `pattern` stands.
pub(crate) fn find_from(s: &Vec<char>, i: usize, pattern: &Vec<char>) -> (r: Option<usize>)
    requires
        i <= s.len(),
    ensures
        match find(s@, i as int, pattern@) {
            Some(p) => r == Some(p as usize) && i <= p && p + pattern.len() <= s.len(),
            None => r is None,
        },
{
    let mut p: usize = i;
    loop
        invariant
            i <= p <= s.len(),
            forall|j: int| i <= j < p ==> !stands_at(s@, j, pattern@),
        decreases s.len() - p,
    {
        if matches_at(s, p, pattern) {
            proof {
                lemma_find_unique(s@, i as int, pattern@, p as int);
            }
            return Some(p);
        }
        if p == s.len() {
            proof {
                lemma_find_none(s@, i as int, pattern@);
            }
            return None;
        }
        p += 1;
    }
}

/// Finds the end of the run of characters other than `stop` from `i` on.
pub(crate) fn scan_run(s: &Vec<char>, i: usize, stop: char) -> (p: usize)
    requires
        i <= s.len(),
    ensures
        p == run_end(s@, i as int, stop),
        i <= p <= s.len(),
{
    let mut p: usize = i;
    while p < s.len() && s[p] != stop
        invariant
            i <= p <= s.len(),
            forall|j: int| i <= j < p ==> #[trigger] s@[j] != stop,
        decreases s.len() - p,
    {
        p += 1;
    }
    proof {
        lemma_run_end_unique(s@, i as int, stop, p as int);
    }
    p
}

/// The characters of `text` from position `from` up to position `to`, as a
/// string.
pub(crate) fn slice_string(text: &str, from: usize, to: usize) -> (r: String)
    requires
        from <= to <= text@.len(),
    ensures
        r@ == text@.subrange(from as int, to as int),
{
    String::from_str(text.substring_char(from, to))
}

} // verus!
