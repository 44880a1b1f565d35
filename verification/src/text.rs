//! Plain-text utilities shared by the scanners and the position mapper:
//! character classes, newline bookkeeping over a sequence of characters, and
//! helpers for comparing and matching string slices. All offsets are counted
//! in Unicode scalar values, never in bytes.

use vstd::prelude::*;

use crate::meta::{Location, Position};

verus! {

/// What the Unicode word class `\w` holds of a character: the `Alphabetic`
/// and `Join_Control` properties and the `Decimal_Number`, `Mark` and
/// `Connector_Punctuation` categories.
pub uninterp spec fn unicode_word_char(c: char) -> bool;

/// What the Unicode whitespace class `\s` holds of a character: the
/// `White_Space` property.
pub uninterp spec fn unicode_space_char(c: char) -> bool;

/// A word character: a member of the Unicode `\w` class.
pub open spec fn is_word_char(c: char) -> bool {
    unicode_word_char(c)
}

/// A whitespace character: a member of the Unicode `\s` class.
pub open spec fn is_space_char(c: char) -> bool {
    unicode_space_char(c)
}

/// A single or double quotation mark.
pub open spec fn is_quote_char(c: char) -> bool {
    c == '"' || c == '\''
}

/// Relies on regex_syntax::is_word_character, the `\w` class of UTS#18
/// (total, with the crate's default Unicode tables): the result depends on
/// the character alone.
#[verifier::external_body]
pub(crate) fn word_char(c: char) -> (r: bool)
    ensures
        r == unicode_word_char(c),
{
    regex_syntax::is_word_character(c)
}

/// Relies on char::is_whitespace, documented as the Unicode `White_Space`
/// property — exactly the `\s` class: the result depends on the character
/// alone.
#[verifier::external_body]
pub(crate) fn space_char(c: char) -> (r: bool)
    ensures
        r == unicode_space_char(c),
{
    c.is_whitespace()
}

pub fn quote_char(c: char) -> (r: bool)
    ensures
        r == is_quote_char(c),
{
    c == '"' || c == '\''
}

/// How many newline characters occur strictly before offset `off`.
pub open spec fn newline_count(s: Seq<char>, off: int) -> int
    decreases off,
{
    if off <= 0 {
        0
    } else if off > s.len() {
        newline_count(s, s.len() as int)
    } else {
        newline_count(s, off - 1) + if s[off - 1] == '\n' {
            1int
        } else {
            0int
        }
    }
}

/// The offset at which the line containing offset `off` begins: the offset
/// just after the last newline strictly before `off`, or 0 when there is none.
pub open spec fn line_start(s: Seq<char>, off: int) -> int
    decreases off,
{
    if off <= 0 {
        0
    } else if off > s.len() {
        line_start(s, s.len() as int)
    } else if s[off - 1] == '\n' {
        off
    } else {
        line_start(s, off - 1)
    }
}

pub proof fn lemma_newline_count_bounds(s: Seq<char>, off: int)
    requires
        0 <= off <= s.len(),
    ensures
        0 <= newline_count(s, off) <= off,
    decreases off,
{
    if off > 0 {
        lemma_newline_count_bounds(s, off - 1);
    }
}

pub proof fn lemma_newline_count_monotone(s: Seq<char>, a: int, b: int)
    requires
        a <= b,
        b <= s.len(),
    ensures
        newline_count(s, a) <= newline_count(s, b),
    decreases b - a,
{
    if a < b {
        lemma_newline_count_monotone(s, a, b - 1);
    }
}

pub proof fn lemma_line_start_bounds(s: Seq<char>, off: int)
    requires
        0 <= off,
    ensures
        0 <= line_start(s, off),
        line_start(s, off) <= off,
    decreases off,
{
    if off > 0 {
        if off > s.len() {
            lemma_line_start_bounds(s, s.len() as int);
        } else if s[off - 1] != '\n' {
            lemma_line_start_bounds(s, off - 1);
        }
    }
}

/// The position of offset `off`: its 1-based line and its 0-based column,
/// counted in characters from the start of the line.
pub open spec fn position_of(s: Seq<char>, off: int) -> Position {
    Position {
        line: (newline_count(s, off) + 1) as usize,
        column: (off - line_start(s, off)) as usize,
    }
}

/// The location spanning offsets `lo` (inclusive) to `hi` (exclusive).
pub open spec fn location_of(s: Seq<char>, lo: int, hi: int) -> Location {
    Location { start: position_of(s, lo), end: position_of(s, hi) }
}

/// Computes the newline count before `off` and the start of the line holding
/// `off` in one pass.
pub fn scan_line_col(text: &str, off: usize) -> (r: (usize, usize))
    requires
        off <= text@.len(),
    ensures
        r.0 == newline_count(text@, off as int),
        r.1 == line_start(text@, off as int),
{
    let mut i: usize = 0;
    let mut nl: usize = 0;
    let mut ls: usize = 0;
    proof {
        lemma_newline_count_bounds(text@, off as int);
    }
    while i < off
        invariant
            i <= off <= text@.len(),
            nl == newline_count(text@, i as int),
            ls == line_start(text@, i as int),
            nl <= i,
            ls <= i,
        decreases off - i,
    {
        let c = text.get_char(i);
        if c == '\n' {
            nl = nl + 1;
            ls = i + 1;
        }
        i = i + 1;
    }
    (nl, ls)
}

/// Converts a half-open span of character offsets into a `Location`, exactly
/// as the position mapper prescribes: 1-based lines, columns counted in
/// characters from the line start.
pub fn convert_char_pos(lo: usize, hi: usize, text: &str) -> (loc: Location)
    requires
        lo <= text@.len(),
        hi <= text@.len(),
        text@.len() < usize::MAX,
    ensures
        loc == location_of(text@, lo as int, hi as int),
{
    proof {
        lemma_newline_count_bounds(text@, lo as int);
        lemma_newline_count_bounds(text@, hi as int);
        lemma_line_start_bounds(text@, lo as int);
        lemma_line_start_bounds(text@, hi as int);
    }
    let (nl_lo, ls_lo) = scan_line_col(text, lo);
    let (nl_hi, ls_hi) = scan_line_col(text, hi);
    Location {
        start: Position { line: nl_lo + 1, column: lo - ls_lo },
        end: Position { line: nl_hi + 1, column: hi - ls_hi },
    }
}

/// The first offset at or after `i` that does not hold a whitespace
/// character, or the end of the text.
pub open spec fn skip_spaces(s: Seq<char>, i: int) -> int
    decreases s.len() - i,
{
    if i < 0 {
        i
    } else if i >= s.len() {
        i
    } else if is_space_char(s[i]) {
        skip_spaces(s, i + 1)
    } else {
        i
    }
}

/// The first offset at or after `i` that does not hold a word character, or
/// the end of the text.
pub open spec fn word_end(s: Seq<char>, i: int) -> int
    decreases s.len() - i,
{
    if i < 0 {
        i
    } else if i >= s.len() {
        i
    } else if is_word_char(s[i]) {
        word_end(s, i + 1)
    } else {
        i
    }
}

pub proof fn lemma_skip_spaces_bounds(s: Seq<char>, i: int)
    requires
        0 <= i <= s.len(),
    ensures
        i <= skip_spaces(s, i) <= s.len(),
    decreases s.len() - i,
{
    if i < s.len() && is_space_char(s[i]) {
        lemma_skip_spaces_bounds(s, i + 1);
    }
}

pub proof fn lemma_word_end_bounds(s: Seq<char>, i: int)
    requires
        0 <= i <= s.len(),
    ensures
        i <= word_end(s, i) <= s.len(),
    decreases s.len() - i,
{
    if i < s.len() && is_word_char(s[i]) {
        lemma_word_end_bounds(s, i + 1);
    }
}

/// Advances past whitespace characters.
pub fn skip_spaces_from(text: &str, start: usize) -> (r: usize)
    requires
        start <= text@.len(),
    ensures
        r == skip_spaces(text@, start as int),
        start <= r <= text@.len(),
{
    let n = text.unicode_len();
    let mut i: usize = start;
    while i < n && space_char(text.get_char(i))
        invariant
            start <= i <= n,
            n == text@.len(),
            skip_spaces(text@, start as int) == skip_spaces(text@, i as int),
        decreases n - i,
    {
        i = i + 1;
    }
    i
}

/// Advances past word characters.
pub fn word_end_from(text: &str, start: usize) -> (r: usize)
    requires
        start <= text@.len(),
    ensures
        r == word_end(text@, start as int),
        start <= r <= text@.len(),
{
    let n = text.unicode_len();
    let mut i: usize = start;
    while i < n && word_char(text.get_char(i))
        invariant
            start <= i <= n,
            n == text@.len(),
            word_end(text@, start as int) == word_end(text@, i as int),
        decreases n - i,
    {
        i = i + 1;
    }
    i
}

/// The view of each string in a sequence of owned strings.
pub open spec fn str_views(v: Seq<String>) -> Seq<Seq<char>> {
    v.map_values(|x: String| x@)
}

/// Whether some string in `v` has the same characters as `s`.
pub fn contains_string(v: &Vec<String>, s: &str) -> (r: bool)
    ensures
        r == str_views(v@).contains(s@),
{
    let mut i: usize = 0;
    while i < v.len()
        invariant
            i <= v@.len(),
            forall|j: int| 0 <= j < i ==> v@[j]@ != s@,
        decreases v@.len() - i,
    {
        if str_eq_str(v[i].as_str(), s) {
            proof {
                assert(str_views(v@)[i as int] == s@);
            }
            return true;
        }
        i = i + 1;
    }
    proof {
        assert forall|j: int| 0 <= j < str_views(v@).len() implies str_views(v@)[j] != s@ by {
            assert(str_views(v@)[j] == v@[j]@);
        }
    }
    false
}

/// Whether the characters of `lit` occur in `s` starting at offset `i`.
pub open spec fn lit_at(s: Seq<char>, i: int, lit: Seq<char>) -> bool {
    0 <= i && i + lit.len() <= s.len() && s.subrange(i, i + lit.len()) == lit
}

/// Whether `s` ends with the characters of `suf`.
pub open spec fn ends_with(s: Seq<char>, suf: Seq<char>) -> bool {
    suf.len() <= s.len() && s.subrange(s.len() - suf.len(), s.len() as int) == suf
}

/// Character-for-character equality of two string slices.
pub fn str_eq_str(a: &str, b: &str) -> (r: bool)
    ensures
        r == (a@ == b@),
{
    let n = a.unicode_len();
    if n != b.unicode_len() {
        proof {
            assert(a@ != b@) by {
                assert(a@.len() != b@.len());
            }
        }
        return false;
    }
    let mut i: usize = 0;
    while i < n
        invariant
            n == a@.len(),
            n == b@.len(),
            i <= n,
            forall|j: int| 0 <= j < i ==> a@[j] == b@[j],
        decreases n - i,
    {
        if a.get_char(i) != b.get_char(i) {
            return false;
        }
        i = i + 1;
    }
    proof {
        assert(a@ =~= b@);
    }
    true
}

/// Whether `text` holds the characters of `pat` starting at offset `i`.
pub fn lit_match(text: &str, i: usize, pat: &str) -> (r: bool)
    ensures
        r == lit_at(text@, i as int, pat@),
{
    let n = pat.unicode_len();
    let text_len = text.unicode_len();
    if n > text_len || i > text_len - n {
        return false;
    }
    let mut j: usize = 0;
    while j < n
        invariant
            n == pat@.len(),
            text_len == text@.len(),
            i + n <= text_len,
            j <= n,
            forall|k: int| 0 <= k < j ==> text@[i + k] == pat@[k],
        decreases n - j,
    {
        if text.get_char(i + j) != pat.get_char(j) {
            proof {
                assert(text@.subrange(i as int, i + pat@.len())[j as int] != pat@[j as int]);
            }
            return false;
        }
        j = j + 1;
    }
    proof {
        assert(text@.subrange(i as int, i + pat@.len()) =~= pat@);
    }
    true
}

/// Whether `s` ends with the characters of `suf`.
pub fn str_ends_with(s: &str, suf: &str) -> (r: bool)
    ensures
        r == ends_with(s@, suf@),
{
    let n = suf.unicode_len();
    let s_len = s.unicode_len();
    if n > s_len {
        return false;
    }
    let r = lit_match(s, s_len - n, suf);
    proof {
        assert(lit_at(s@, s@.len() - suf@.len(), suf@) == ends_with(s@, suf@));
    }
    r
}

} // verus!
