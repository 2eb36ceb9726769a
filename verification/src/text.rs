//! Strings as sequences of characters.
//!
//! Paths, patterns and hashes are compared character by character. The
//! functions here move between `str` and `Vec<char>` and answer the few
//! questions the rest of the crate asks of a string: where a pattern occurs
//! in it, and where a separator stands first or last.

use vstd::prelude::*;

verus! {

/// `String::push` appends one character to the end of the string.
pub assume_specification[ String::push ](s: &mut String, ch: char)
    ensures
        final(s)@ == old(s)@.push(ch),
;

/// What a list of strings holds: the characters of each, in order.
pub open spec fn texts(list: Seq<String>) -> Seq<Seq<char>> {
    list.map_values(|s: String| s@)
}

/// `pattern` stands in `text` at index `at`.
pub open spec fn occurs_at(text: Seq<char>, pattern: Seq<char>, at: int) -> bool {
    &&& 0 <= at
    &&& at + pattern.len() <= text.len()
    &&& text.subrange(at, at + pattern.len()) == pattern
}

/// `pattern` stands somewhere in `text`. The empty pattern stands in every text.
pub open spec fn has_substring(text: Seq<char>, pattern: Seq<char>) -> bool {
    exists|at: int| #[trigger] occurs_at(text, pattern, at)
}

/// The smallest index at or after `from` at which `c` stands in `s`.
pub open spec fn first_position_from(s: Seq<char>, c: char, from: int) -> Option<int>
    decreases s.len() - from,
{
    if from < 0 || from >= s.len() {
        None
    } else if s[from] == c {
        Some(from)
    } else {
        first_position_from(s, c, from + 1)
    }
}

/// The smallest index at which `c` stands in `s`.
pub open spec fn first_position(s: Seq<char>, c: char) -> Option<int> {
    first_position_from(s, c, 0)
}

/// The greatest index below `upto` at which `c` stands in `s`.
pub open spec fn last_position_upto(s: Seq<char>, c: char, upto: int) -> Option<int>
    decreases upto,
{
    if upto <= 0 || upto > s.len() {
        None
    } else if s[upto - 1] == c {
        Some(upto - 1)
    } else {
        last_position_upto(s, c, upto - 1)
    }
}

/// The greatest index at which `c` stands in `s`.
pub open spec fn last_position(s: Seq<char>, c: char) -> Option<int> {
    last_position_upto(s, c, s.len() as int)
}

/// `first_position_from` finds `c`, and nothing between `from` and the index
/// it gives is `c`; it gives `None` only where `c` does not stand at or after
/// `from`.
pub proof fn law_first_position_is_first(s: Seq<char>, c: char, from: int)
    requires
        0 <= from,
    ensures
        match first_position_from(s, c, from) {
            Some(i) => from <= i < s.len() && s[i] == c && forall|j: int|
                from <= j < i ==> s[j] != c,
            None => forall|j: int| from <= j < s.len() ==> s[j] != c,
        },
    decreases s.len() - from,
{
    if from < s.len() && s[from] != c {
        law_first_position_is_first(s, c, from + 1);
    }
}

/// `last_position_upto` finds `c`, and nothing between the index it gives and
/// `upto` is `c`; it gives `None` only where `c` does not stand below `upto`.
pub proof fn law_last_position_is_last(s: Seq<char>, c: char, upto: int)
    requires
        upto <= s.len(),
    ensures
        match last_position_upto(s, c, upto) {
            Some(i) => 0 <= i < upto && s[i] == c && forall|j: int| i < j < upto ==> s[j] != c,
            None => forall|j: int| 0 <= j < upto ==> s[j] != c,
        },
    decreases upto,
{
    if upto > 0 && s[upto - 1] != c {
        law_last_position_is_last(s, c, upto - 1);
    }
}

/// The characters of `s`, in order.
pub fn chars_of(s: &str) -> (chars: Vec<char>)
    ensures
        chars@ == s@,
{
    let mut chars: Vec<char> = Vec::new();
    for c in it: s.chars()
        invariant
            chars@ == it.seq().take(it.index()),
            it.seq() == s@,
    {
        chars.push(c);
    }
    chars
}

/// The string made of the characters `chars`, in order.
pub fn string_of(chars: &[char]) -> (s: String)
    ensures
        s@ == chars@,
{
    let mut s = String::new();
    let mut i: usize = 0;
    while i < chars.len()
        invariant
            i <= chars.len(),
            s@ == chars@.take(i as int),
        decreases chars.len() - i,
    {
        s.push(chars[i]);
        i += 1;
    }
    s
}

/// The string made of the characters of `chars` from index `from` up to, and
/// without, index `to`.
pub(crate) fn string_of_range(chars: &[char], from: usize, to: usize) -> (s: String)
    requires
        from <= to <= chars.len(),
    ensures
        s@ == chars@.subrange(from as int, to as int),
{
    let mut s = String::new();
    let mut i: usize = from;
    while i < to
        invariant
            from <= i <= to <= chars.len(),
            s@ == chars@.subrange(from as int, i as int),
        decreases to - i,
    {
        s.push(chars[i]);
        i += 1;
    }
    s
}

/// Whether `pattern` stands in `text` at index `at`.
pub fn slice_occurs_at(text: &[char], pattern: &[char], at: usize) -> (found: bool)
    ensures
        found == occurs_at(text@, pattern@, at as int),
{
    if pattern.len() > text.len() || at > text.len() - pattern.len() {
        return false;
    }
    let mut k: usize = 0;
    while k < pattern.len()
        invariant
            at + pattern.len() <= text.len(),
            k <= pattern.len(),
            forall|j: int| 0 <= j < k ==> text@[at + j] == pattern@[j],
        decreases pattern.len() - k,
    {
        if text[at + k] != pattern[k] {
            assert(text@.subrange(at as int, at + pattern.len())[k as int] == text@[at + k]);
            return false;
        }
        k += 1;
    }
    assert(text@.subrange(at as int, at + pattern.len()) =~= pattern@);
    true
}

/// Whether `text` begins with `prefix`.
pub fn slice_starts_with(text: &[char], prefix: &[char]) -> (found: bool)
    ensures
        found == prefix@.is_prefix_of(text@),
{
    slice_occurs_at(text, prefix, 0)
}

/// Whether `text` ends with `suffix`.
pub fn slice_ends_with(text: &[char], suffix: &[char]) -> (found: bool)
    ensures
        found == suffix@.is_suffix_of(text@),
{
    if suffix.len() > text.len() {
        return false;
    }
    slice_occurs_at(text, suffix, text.len() - suffix.len())
}

/// Whether `pattern` stands somewhere in `text`.
pub fn slice_contains(text: &[char], pattern: &[char]) -> (found: bool)
    ensures
        found == has_substring(text@, pattern@),
{
    if pattern.len() > text.len() {
        return false;
    }
    let last: usize = text.len() - pattern.len();
    let mut at: usize = 0;
    loop
        invariant
            last == text.len() - pattern.len(),
            at <= last,
            forall|j: int| 0 <= j < at ==> !occurs_at(text@, pattern@, j),
        decreases last - at,
    {
        if slice_occurs_at(text, pattern, at) {
            return true;
        }
        if at == last {
            return false;
        }
        at += 1;
    }
}

/// The first index at which `c` stands in `s`.
pub fn slice_first_position(s: &[char], c: char) -> (found: Option<usize>)
    ensures
        match found {
            Some(i) => i < s@.len() && first_position(s@, c) == Some(i as int),
            None => first_position(s@, c) is None,
        },
{
    let mut i: usize = 0;
    while i < s.len()
        invariant
            i <= s.len(),
            first_position(s@, c) == first_position_from(s@, c, i as int),
        decreases s.len() - i,
    {
        if s[i] == c {
            return Some(i);
        }
        i += 1;
    }
    None
}

/// The last index at which `c` stands in `s`.
pub fn slice_last_position(s: &[char], c: char) -> (found: Option<usize>)
    ensures
        match found {
            Some(i) => i < s@.len() && last_position(s@, c) == Some(i as int),
            None => last_position(s@, c) is None,
        },
{
    let mut i: usize = s.len();
    while i > 0
        invariant
            i <= s.len(),
            last_position(s@, c) == last_position_upto(s@, c, i as int),
        decreases i,
    {
        if s[i - 1] == c {
            return Some(i - 1);
        }
        i -= 1;
    }
    None
}

/// Whether `text` ends with `suffix`: a plain comparison of the last
/// characters, with no regard to what the text names.
pub fn ends_with(text: &str, suffix: &str) -> (found: bool)
    ensures
        found == suffix@.is_suffix_of(text@),
{
    let t = chars_of(text);
    let s = chars_of(suffix);
    slice_ends_with(t.as_slice(), s.as_slice())
}

/// Whether `text` begins with `prefix`.
pub fn starts_with(text: &str, prefix: &str) -> (found: bool)
    ensures
        found == prefix@.is_prefix_of(text@),
{
    let t = chars_of(text);
    let p = chars_of(prefix);
    slice_starts_with(t.as_slice(), p.as_slice())
}

/// Whether `pattern` stands somewhere in `text`.
pub fn contains(text: &str, pattern: &str) -> (found: bool)
    ensures
        found == has_substring(text@, pattern@),
{
    let t = chars_of(text);
    let p = chars_of(pattern);
    slice_contains(t.as_slice(), p.as_slice())
}

} // verus!
