//! Character-level helpers shared by the filter language and the record model.
//!
//! Every contract here is stated over `Seq<char>`, the view of a string: one
//! element per Unicode scalar value.

use vstd::prelude::*;

verus! {

/// The characters that `trim_text` removes: the Unicode `White_Space` set.
pub open spec fn is_whitespace(c: char) -> bool {
    ||| ('\u{9}' <= c && c <= '\u{D}')
    ||| c == ' '
    ||| c == '\u{85}'
    ||| c == '\u{A0}'
    ||| c == '\u{1680}'
    ||| ('\u{2000}' <= c && c <= '\u{200A}')
    ||| c == '\u{2028}'
    ||| c == '\u{2029}'
    ||| c == '\u{202F}'
    ||| c == '\u{205F}'
    ||| c == '\u{3000}'
}

/// `s` without its leading and trailing whitespace.
pub open spec fn trimmed(s: Seq<char>) -> Seq<char>
    decreases s.len(),
{
    if s.len() > 0 && is_whitespace(s.first()) {
        trimmed(s.drop_first())
    } else if s.len() > 0 && is_whitespace(s.last()) {
        trimmed(s.drop_last())
    } else {
        s
    }
}

/// `needle` occurs in `haystack` starting at index `at`.
pub open spec fn occurs_at(haystack: Seq<char>, needle: Seq<char>, at: int) -> bool {
    &&& 0 <= at
    &&& at + needle.len() <= haystack.len()
    &&& haystack.subrange(at, at + needle.len()) == needle
}

/// `needle` is a contiguous part of `haystack`. The empty sequence is a part
/// of every sequence.
pub open spec fn contains(haystack: Seq<char>, needle: Seq<char>) -> bool {
    exists|at: int| occurs_at(haystack, needle, at)
}

/// The characters of `text`, in order.
pub fn chars_of(text: &str) -> (chars: Vec<char>)
    ensures
        chars@ == text@,
{
    let mut chars: Vec<char> = Vec::new();
    for c in it: text.chars()
        invariant
            chars@ == it.seq().take(it.index() as int),
            it.seq() == text@,
    {
        chars.push(c);
    }
    chars
}

/// Runtime test for `is_whitespace`.
pub fn whitespace(c: char) -> (r: bool)
    ensures
        r == is_whitespace(c),
{
    ('\u{9}' <= c && c <= '\u{D}') || c == ' ' || c == '\u{85}' || c == '\u{A0}' || c
        == '\u{1680}' || ('\u{2000}' <= c && c <= '\u{200A}') || c == '\u{2028}' || c
        == '\u{2029}' || c == '\u{202F}' || c == '\u{205F}' || c == '\u{3000}'
}

/// Whether `needle` occurs in `haystack` at `at`.
pub(crate) fn matches_at(haystack: &[char], needle: &[char], at: usize) -> (r: bool)
    requires
        at + needle@.len() <= haystack@.len(),
    ensures
        r == occurs_at(haystack@, needle@, at as int),
{
    let size: usize = haystack.len();
    let mut k: usize = 0;
    while k < needle.len()
        invariant
            k <= needle@.len(),
            size == haystack@.len(),
            at + needle@.len() <= haystack@.len(),
            forall|j: int| 0 <= j < k ==> haystack@[at + j] == needle@[j],
        decreases needle@.len() - k,
    {
        if haystack[at + k] != needle[k] {
            assert(haystack@.subrange(at as int, at + needle@.len())[k as int] == haystack@[at + k]);
            return false;
        }
        k += 1;
    }
    assert(haystack@.subrange(at as int, at + needle@.len()) =~= needle@);
    true
}

/// Substring test: whether `needle` occurs anywhere in `haystack`.
pub fn find_in(haystack: &[char], needle: &[char]) -> (found: bool)
    ensures
        found == contains(haystack@, needle@),
{
    if needle.len() > haystack.len() {
        return false;
    }
    let last: usize = haystack.len() - needle.len();
    let mut at: usize = 0;
    while at < last
        invariant
            last == haystack@.len() - needle@.len(),
            at <= last,
            forall|k: int| 0 <= k < at ==> !occurs_at(haystack@, needle@, k),
        decreases last - at,
    {
        if matches_at(haystack, needle, at) {
            return true;
        }
        at += 1;
    }
    matches_at(haystack, needle, last)
}

/// The bounds of `trimmed(s)` inside `s`: it is `s.subrange(start, end)` for
/// the first `start` and the last `end` between which no whitespace is cut.
proof fn lemma_trimmed_bounds(s: Seq<char>, start: int, end: int)
    requires
        0 <= start <= end <= s.len(),
        forall|k: int| 0 <= k < start ==> is_whitespace(s[k]),
        forall|k: int| end <= k < s.len() ==> is_whitespace(s[k]),
        start < end ==> !is_whitespace(s[start]) && !is_whitespace(s[end - 1]),
    ensures
        trimmed(s) == s.subrange(start, end),
    decreases s.len(),
{
    if s.len() > 0 && is_whitespace(s.first()) {
        let rest = s.drop_first();
        if start == 0 {
            // Nothing but whitespace: the window is empty.
            assert(start == end);
            lemma_trimmed_bounds(rest, 0, 0);
            assert(rest.subrange(0, 0) =~= s.subrange(0, 0));
        } else {
            lemma_trimmed_bounds(rest, start - 1, end - 1);
            assert(rest.subrange(start - 1, end - 1) =~= s.subrange(start, end));
        }
    } else if s.len() > 0 && is_whitespace(s.last()) {
        let rest = s.drop_last();
        assert(start == 0);
        if end == s.len() {
            assert(start == end);
        }
        lemma_trimmed_bounds(rest, start, end);
        assert(rest.subrange(start, end) =~= s.subrange(start, end));
    } else {
        assert(start == 0);
        assert(end == s.len());
        assert(s.subrange(0, s.len() as int) =~= s);
    }
}

/// A trimmed text neither starts nor ends with whitespace.
pub proof fn lemma_trimmed_is_bare(s: Seq<char>)
    ensures
        trimmed(s).len() > 0 ==> !is_whitespace(trimmed(s).first()) && !is_whitespace(
            trimmed(s).last(),
        ),
    decreases s.len(),
{
    if s.len() > 0 && is_whitespace(s.first()) {
        lemma_trimmed_is_bare(s.drop_first());
    } else if s.len() > 0 && is_whitespace(s.last()) {
        lemma_trimmed_is_bare(s.drop_last());
    }
}

/// Trimming takes nothing but whitespace away, from both ends: the text is
/// whitespace, then the trimmed text, then whitespace.
pub proof fn lemma_trimmed_is_the_middle(s: Seq<char>) -> (bounds: (int, int))
    ensures
        0 <= bounds.0 <= bounds.1 <= s.len(),
        trimmed(s) == s.subrange(bounds.0, bounds.1),
        forall|k: int| 0 <= k < bounds.0 ==> is_whitespace(s[k]),
        forall|k: int| bounds.1 <= k < s.len() ==> is_whitespace(s[k]),
    decreases s.len(),
{
    if s.len() > 0 && is_whitespace(s.first()) {
        let rest = s.drop_first();
        let inner = lemma_trimmed_is_the_middle(rest);
        assert(rest.subrange(inner.0, inner.1) =~= s.subrange(inner.0 + 1, inner.1 + 1));
        assert forall|k: int| 0 <= k < inner.0 + 1 implies is_whitespace(s[k]) by {
            if k > 0 {
                assert(s[k] == rest[k - 1]);
            }
        }
        assert forall|k: int| inner.1 + 1 <= k < s.len() implies is_whitespace(s[k]) by {
            assert(s[k] == rest[k - 1]);
        }
        (inner.0 + 1, inner.1 + 1)
    } else if s.len() > 0 && is_whitespace(s.last()) {
        let rest = s.drop_last();
        let inner = lemma_trimmed_is_the_middle(rest);
        assert(rest.subrange(inner.0, inner.1) =~= s.subrange(inner.0, inner.1));
        assert forall|k: int| inner.1 <= k < s.len() implies is_whitespace(s[k]) by {
            if k < rest.len() {
                assert(s[k] == rest[k]);
            }
        }
        inner
    } else {
        assert(s.subrange(0, s.len() as int) =~= s);
        (0, s.len() as int)
    }
}

/// A copy of `text` without its leading and trailing whitespace.
pub fn trim_text(text: &str) -> (r: String)
    ensures
        r@ == trimmed(text@),
{
    let chars = chars_of(text);
    let mut start: usize = 0;
    while start < chars.len() && whitespace(chars[start])
        invariant
            start <= chars@.len(),
            forall|k: int| 0 <= k < start ==> is_whitespace(chars@[k]),
        decreases chars@.len() - start,
    {
        start += 1;
    }
    let mut end: usize = chars.len();
    while end > start && whitespace(chars[end - 1])
        invariant
            start <= end <= chars@.len(),
            forall|k: int| end <= k < chars@.len() ==> is_whitespace(chars@[k]),
        decreases end,
    {
        end -= 1;
    }
    proof {
        lemma_trimmed_bounds(text@, start as int, end as int);
    }
    text.substring_char(start, end).to_owned()
}

} // verus!
