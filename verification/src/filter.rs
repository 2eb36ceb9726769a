//! Which files are translated.
//!
//! A filter names suffixes, as in `*.md *.txt`, and substrings that rule a
//! path out. A path is a candidate where it ends with one of the suffixes,
//! character for character: `md` is met by `readme.md` and by `notes.xmd`
//! alike. A candidate is translated unless an excluded substring stands
//! anywhere in its path. Every other file is copied as it is.
//!
//! Each white-space character of a target ends one suffix and begins the
//! next. Two of them in a row, or one at either end, or a target that is
//! empty, therefore name the empty suffix, and every path ends with that.

use crate::text::{chars_of, has_substring, slice_contains, slice_ends_with, string_of_range, texts};
use vstd::prelude::*;

verus! {

/// The rules that pick the files to translate.
#[derive(Clone, Debug)]
pub struct Filter {
    /// Suffix patterns, separated by white space.
    pub target: String,
    /// Substrings that are noted with the filter; they rule nothing in or out.
    pub includes: Vec<String>,
    /// Substrings that rule a candidate out.
    pub excludes: Vec<String>,
}

/// White space, as Unicode defines it.
pub open spec fn is_whitespace(c: char) -> bool {
    let n = c as u32;
    ||| 0x09 <= n <= 0x0d
    ||| n == 0x20
    ||| n == 0x85
    ||| n == 0xa0
    ||| n == 0x1680
    ||| 0x2000 <= n <= 0x200a
    ||| n == 0x2028
    ||| n == 0x2029
    ||| n == 0x202f
    ||| n == 0x205f
    ||| n == 0x3000
}

/// The characters that a suffix pattern is written with and that are no
/// part of the suffix.
pub open spec fn is_pattern_mark(c: char) -> bool {
    c == '*' || c == '.'
}

/// `s` without its pattern marks.
pub open spec fn strip_marks(s: Seq<char>) -> Seq<char> {
    s.filter(|c: char| !is_pattern_mark(c))
}

/// The first index at or after `from` at which white space stands in `s`;
/// the length of `s` where there is none.
pub open spec fn word_end(s: Seq<char>, from: int) -> int
    decreases s.len() - from,
{
    if from < 0 || from >= s.len() || is_whitespace(s[from]) {
        from
    } else {
        word_end(s, from + 1)
    }
}

/// `word_end` lies at or after `from` and within the text; no white space
/// stands between the two, and white space or the end of the text stands
/// at `word_end`.
pub proof fn lemma_word_end(s: Seq<char>, from: int)
    requires
        0 <= from <= s.len(),
    ensures
        from <= word_end(s, from) <= s.len(),
        forall|k: int| from <= k < word_end(s, from) ==> !is_whitespace(s[k]),
        word_end(s, from) < s.len() ==> is_whitespace(s[word_end(s, from)]),
    decreases s.len() - from,
{
    if from < s.len() && !is_whitespace(s[from]) {
        lemma_word_end(s, from + 1);
    }
}

/// The pieces into which white space parts `s` from index `from` on: each
/// white-space character ends one piece and begins the next, so that there
/// is one piece more than there are such characters, and a piece is empty
/// where nothing stands between two of them.
pub open spec fn pieces_from(s: Seq<char>, from: int) -> Seq<Seq<char>>
    decreases s.len() - from,
{
    if from < 0 || from > s.len() {
        Seq::empty()
    } else {
        proof {
            lemma_word_end(s, from);
        }
        let end = word_end(s, from);
        if end >= s.len() {
            seq![s.subrange(from, s.len() as int)]
        } else {
            seq![s.subrange(from, end)] + pieces_from(s, end + 1)
        }
    }
}

/// The pieces into which white space parts `s`.
pub open spec fn pieces(s: Seq<char>) -> Seq<Seq<char>> {
    pieces_from(s, 0)
}

/// The suffixes that the target `target` names: the pieces into which
/// white space parts it, once every `*` and `.` is taken out of it.
pub open spec fn suffix_tokens(target: Seq<char>) -> Seq<Seq<char>> {
    pieces(strip_marks(target))
}

/// `path` ends with one of `suffixes`.
pub open spec fn is_candidate(path: Seq<char>, suffixes: Seq<Seq<char>>) -> bool {
    exists|i: int| 0 <= i < suffixes.len() && (#[trigger] suffixes[i]).is_suffix_of(path)
}

/// One of `excludes` stands somewhere in `path`.
pub open spec fn is_excluded(path: Seq<char>, excludes: Seq<Seq<char>>) -> bool {
    exists|i: int| 0 <= i < excludes.len() && has_substring(path, #[trigger] excludes[i])
}

/// `path` is translated: it is a candidate and not excluded.
pub open spec fn is_translatable(
    path: Seq<char>,
    suffixes: Seq<Seq<char>>,
    excludes: Seq<Seq<char>>,
) -> bool {
    is_candidate(path, suffixes) && !is_excluded(path, excludes)
}

/// Whether `c` is white space.
pub fn char_is_whitespace(c: char) -> (white: bool)
    ensures
        white == is_whitespace(c),
{
    let n: u32 = c as u32;
    (0x09 <= n && n <= 0x0d) || n == 0x20 || n == 0x85 || n == 0xa0 || n == 0x1680 || (0x2000 <= n
        && n <= 0x200a) || n == 0x2028 || n == 0x2029 || n == 0x202f || n == 0x205f || n == 0x3000
}

fn without_marks(chars: &[char]) -> (kept: Vec<char>)
    ensures
        kept@ == strip_marks(chars@),
{
    let mut kept: Vec<char> = Vec::new();
    let mut i: usize = 0;
    while i < chars.len()
        invariant
            i <= chars.len(),
            kept@ == strip_marks(chars@.take(i as int)),
        decreases chars.len() - i,
    {
        let c: char = chars[i];
        proof {
            let next = chars@.take(i + 1);
            assert(next.drop_last() == chars@.take(i as int));
            assert(next.last() == c);
            reveal(Seq::filter);
        }
        if c != '*' && c != '.' {
            kept.push(c);
        }
        i += 1;
    }
    assert(chars@.take(chars.len() as int) == chars@);
    kept
}

fn split_pieces(chars: &[char]) -> (found: Vec<String>)
    ensures
        texts(found@) == pieces(chars@),
{
    let mut found: Vec<String> = Vec::new();
    let mut start: usize = 0;
    let mut i: usize = 0;
    while i < chars.len()
        invariant
            start <= i <= chars.len(),
            word_end(chars@, start as int) == word_end(chars@, i as int),
            pieces(chars@) == texts(found@) + pieces_from(chars@, start as int),
        decreases chars.len() - i,
    {
        if char_is_whitespace(chars[i]) {
            let piece = string_of_range(chars, start, i);
            proof {
                assert(word_end(chars@, start as int) == i);
                assert(texts(found@.push(piece)) =~= texts(found@) + seq![piece@]);
            }
            found.push(piece);
            start = i + 1;
        }
        i += 1;
    }
    let piece = string_of_range(chars, start, chars.len());
    proof {
        assert(word_end(chars@, start as int) == chars@.len());
        assert(texts(found@.push(piece)) =~= texts(found@) + seq![piece@]);
    }
    found.push(piece);
    found
}

/// The suffixes that `target` names: `["md", "txt"]` for `*.md *.txt`.
pub fn parse_target_suffix(target: &str) -> (suffixes: Vec<String>)
    ensures
        texts(suffixes@) == suffix_tokens(target@),
{
    let chars = chars_of(target);
    let kept = without_marks(chars.as_slice());
    split_pieces(kept.as_slice())
}

/// Whether `path` ends with one of `suffixes`.
pub fn matches_suffix(path: &str, suffixes: &Vec<String>) -> (found: bool)
    ensures
        found == is_candidate(path@, texts(suffixes@)),
{
    let chars = chars_of(path);
    let mut i: usize = 0;
    while i < suffixes.len()
        invariant
            i <= suffixes.len(),
            chars@ == path@,
            forall|k: int| 0 <= k < i ==> !(#[trigger] texts(suffixes@)[k]).is_suffix_of(path@),
        decreases suffixes.len() - i,
    {
        let suffix = chars_of(suffixes[i].as_str());
        if slice_ends_with(chars.as_slice(), suffix.as_slice()) {
            assert(texts(suffixes@)[i as int].is_suffix_of(path@));
            return true;
        }
        i += 1;
    }
    false
}

/// Whether one of `excludes` stands somewhere in `path`.
pub fn matches_exclude(path: &str, excludes: &Vec<String>) -> (found: bool)
    ensures
        found == is_excluded(path@, texts(excludes@)),
{
    let chars = chars_of(path);
    let mut i: usize = 0;
    while i < excludes.len()
        invariant
            i <= excludes.len(),
            chars@ == path@,
            forall|k: int| 0 <= k < i ==> !has_substring(path@, #[trigger] texts(excludes@)[k]),
        decreases excludes.len() - i,
    {
        let pattern = chars_of(excludes[i].as_str());
        if slice_contains(chars.as_slice(), pattern.as_slice()) {
            assert(has_substring(path@, texts(excludes@)[i as int]));
            return true;
        }
        i += 1;
    }
    false
}

/// The files of a checkout, parted by a filter.
#[derive(Clone, Debug)]
pub struct Classified {
    /// The files to translate, in the order in which they were given.
    pub translatable: Vec<String>,
    /// The files to copy as they are, in the order in which they were given.
    pub pass_through: Vec<String>,
}

impl Filter {
    /// The suffixes that the filter's target names.
    pub fn suffixes(&self) -> (suffixes: Vec<String>)
        ensures
            texts(suffixes@) == suffix_tokens(self.target@),
    {
        parse_target_suffix(self.target.as_str())
    }

    /// Whether the file at `path` is translated.
    pub fn is_translatable(&self, path: &str) -> (yes: bool)
        ensures
            yes == is_translatable(path@, suffix_tokens(self.target@), texts(self.excludes@)),
    {
        let suffixes = self.suffixes();
        matches_suffix(path, &suffixes) && !matches_exclude(path, &self.excludes)
    }

    /// Parts `files` into those to translate and those to copy.
    pub fn classify(&self, files: &Vec<String>) -> (parts: Classified)
        ensures
            texts(parts.translatable@) == texts(files@).filter(
                |p: Seq<char>|
                    is_translatable(p, suffix_tokens(self.target@), texts(self.excludes@)),
            ),
            texts(parts.pass_through@) == texts(files@).filter(
                |p: Seq<char>|
                    !is_translatable(p, suffix_tokens(self.target@), texts(self.excludes@)),
            ),
    {
        let suffixes = self.suffixes();
        let mut translatable: Vec<String> = Vec::new();
        let mut pass_through: Vec<String> = Vec::new();
        let ghost all = texts(files@);
        let ghost chosen = |p: Seq<char>|
            is_translatable(p, suffix_tokens(self.target@), texts(self.excludes@));
        let ghost left = |p: Seq<char>|
            !is_translatable(p, suffix_tokens(self.target@), texts(self.excludes@));
        let mut i: usize = 0;
        while i < files.len()
            invariant
                i <= files.len(),
                all == texts(files@),
                texts(suffixes@) == suffix_tokens(self.target@),
                chosen == |p: Seq<char>|
                    is_translatable(p, suffix_tokens(self.target@), texts(self.excludes@)),
                left == |p: Seq<char>|
                    !is_translatable(p, suffix_tokens(self.target@), texts(self.excludes@)),
                texts(translatable@) == all.take(i as int).filter(chosen),
                texts(pass_through@) == all.take(i as int).filter(left),
            decreases files.len() - i,
        {
            let file = files[i].clone();
            let yes = matches_suffix(file.as_str(), &suffixes) && !matches_exclude(
                file.as_str(),
                &self.excludes,
            );
            proof {
                let next = all.take(i + 1);
                assert(next.drop_last() == all.take(i as int));
                assert(next.last() == file@);
                reveal(Seq::filter);
                assert(texts(translatable@.push(file)) =~= texts(translatable@).push(file@));
                assert(texts(pass_through@.push(file)) =~= texts(pass_through@).push(file@));
            }
            if yes {
                translatable.push(file);
            } else {
                pass_through.push(file);
            }
            i += 1;
        }
        assert(all.take(files.len() as int) == all);
        Classified { translatable, pass_through }
    }
}

/// An excluded file is never translated, whatever its suffix: it is not
/// translatable, it is not among the files picked for translation, and
/// where it is among the files at all it is among those that are copied.
pub proof fn law_excluded_is_never_translated(
    path: Seq<char>,
    suffixes: Seq<Seq<char>>,
    excludes: Seq<Seq<char>>,
    files: Seq<Seq<char>>,
)
    requires
        is_excluded(path, excludes),
    ensures
        !is_translatable(path, suffixes, excludes),
        !files.filter(|p: Seq<char>| is_translatable(p, suffixes, excludes)).contains(path),
        files.contains(path) ==> files.filter(
            |p: Seq<char>| !is_translatable(p, suffixes, excludes),
        ).contains(path),
{
    let chosen = |p: Seq<char>| is_translatable(p, suffixes, excludes);
    let left = |p: Seq<char>| !is_translatable(p, suffixes, excludes);
    if files.filter(chosen).contains(path) {
        let i = choose|i: int| 0 <= i < files.filter(chosen).len() && files.filter(chosen)[i] == path;
        files.lemma_filter_pred(chosen, i);
    }
    if files.contains(path) {
        let i = choose|i: int| 0 <= i < files.len() && files[i] == path;
        files.lemma_filter_contains(left, i);
    }
}

/// Every file is translated or copied, and none is both: the files picked
/// for translation are the translatable ones, the files to copy are all
/// the others.
pub proof fn law_every_file_has_one_part(
    path: Seq<char>,
    suffixes: Seq<Seq<char>>,
    excludes: Seq<Seq<char>>,
    files: Seq<Seq<char>>,
)
    requires
        files.contains(path),
    ensures
        files.filter(|p: Seq<char>| is_translatable(p, suffixes, excludes)).contains(path)
            <==> is_translatable(path, suffixes, excludes),
        files.filter(|p: Seq<char>| !is_translatable(p, suffixes, excludes)).contains(path)
            <==> !is_translatable(path, suffixes, excludes),
{
    let chosen = |p: Seq<char>| is_translatable(p, suffixes, excludes);
    let left = |p: Seq<char>| !is_translatable(p, suffixes, excludes);
    let i = choose|i: int| 0 <= i < files.len() && files[i] == path;
    if chosen(path) {
        files.lemma_filter_contains(chosen, i);
    } else {
        files.lemma_filter_contains(left, i);
    }
    if files.filter(chosen).contains(path) {
        let k = choose|k: int| 0 <= k < files.filter(chosen).len() && files.filter(chosen)[k] == path;
        files.lemma_filter_pred(chosen, k);
    }
    if files.filter(left).contains(path) {
        let k = choose|k: int| 0 <= k < files.filter(left).len() && files.filter(left)[k] == path;
        files.lemma_filter_pred(left, k);
    }
}

/// Every target names at least one suffix.
pub proof fn law_target_names_a_suffix(target: Seq<char>)
    ensures
        suffix_tokens(target).len() > 0,
{
    let kept = strip_marks(target);
    lemma_word_end(kept, 0);
}

/// A suffix that a target names holds neither white space nor a pattern
/// mark.
pub proof fn law_suffix_tokens_are_bare(target: Seq<char>, i: int)
    requires
        0 <= i < suffix_tokens(target).len(),
    ensures
        forall|k: int|
            0 <= k < suffix_tokens(target)[i].len() ==> {
                let c = #[trigger] suffix_tokens(target)[i][k];
                !is_whitespace(c) && !is_pattern_mark(c)
            },
{
    let kept = strip_marks(target);
    lemma_pieces_are_runs(kept, 0, i);
    let piece = pieces(kept)[i];
    assert forall|k: int| 0 <= k < piece.len() implies !is_pattern_mark(#[trigger] piece[k]) by {
        let (from, to) = choose|from: int, to: int|
            0 <= from <= to <= kept.len() && piece == kept.subrange(from, to);
        assert(piece[k] == kept[from + k]);
        target.lemma_filter_pred(|c: char| !is_pattern_mark(c), from + k);
    }
}

/// A target without white space names one suffix: itself, without its
/// pattern marks.
pub proof fn law_one_pattern_names_one_suffix(target: Seq<char>)
    requires
        forall|k: int| 0 <= k < target.len() ==> !is_whitespace(#[trigger] target[k]),
    ensures
        suffix_tokens(target) == seq![strip_marks(target)],
{
    let kept = strip_marks(target);
    assert forall|k: int| 0 <= k < kept.len() implies !is_whitespace(#[trigger] kept[k]) by {
        assert(kept.contains(kept[k]));
        target.lemma_filter_contains_rev(|c: char| !is_pattern_mark(c), kept[k]);
    }
    lemma_word_end(kept, 0);
    assert(kept.subrange(0, kept.len() as int) =~= kept);
}

/// Each piece of a text is a run of the text that holds no white space.
pub proof fn lemma_pieces_are_runs(s: Seq<char>, start: int, i: int)
    requires
        0 <= start <= s.len(),
        0 <= i < pieces_from(s, start).len(),
    ensures
        forall|k: int|
            0 <= k < pieces_from(s, start)[i].len() ==> !is_whitespace(
                #[trigger] pieces_from(s, start)[i][k],
            ),
        exists|from: int, to: int|
            0 <= from <= to <= s.len() && pieces_from(s, start)[i] == s.subrange(from, to),
    decreases s.len() - start,
{
    lemma_word_end(s, start);
    let end = word_end(s, start);
    if i == 0 {
        let to = if end >= s.len() {
            s.len() as int
        } else {
            end
        };
        assert(pieces_from(s, start)[0] == s.subrange(start, to));
        assert(0 <= start <= to <= s.len() && pieces_from(s, start)[i] == s.subrange(start, to));
    } else {
        assert(pieces_from(s, start)[i] == pieces_from(s, end + 1)[i - 1]);
        lemma_pieces_are_runs(s, end + 1, i - 1);
    }
}

} // verus!
