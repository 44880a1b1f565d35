//! The stylesheet scanner: finds class-selector tokens of the shape
//! `.identifier` subject to boundary rules, deduplicates them (first
//! occurrence wins), and collects the quoted paths of `@import` directives.

use vstd::prelude::*;

use crate::meta::{css_class_rec, css_class_recs, CssClassMeta, CssClassRec, CssMeta, Location,
    Position};
use crate::text::{
    is_quote_char, is_space_char, is_word_char, lemma_line_start_bounds,
    lemma_newline_count_bounds, lemma_newline_count_monotone, lemma_skip_spaces_bounds, line_start,
    lit_at, lit_match, newline_count, quote_char, skip_spaces, skip_spaces_from, str_views,
    word_char,
};

verus! {

/// The character a class name must start with: a lowercase letter or an
/// underscore.
pub open spec fn is_class_start_char(c: char) -> bool {
    ('a' <= c && c <= 'z') || c == '_'
}

/// A character a class name may continue with: a word character or a hyphen.
pub open spec fn is_class_char(c: char) -> bool {
    is_word_char(c) || c == '-'
}

/// A character allowed immediately before the `.` of a class selector.
pub open spec fn is_before_class_char(c: char) -> bool {
    is_word_char(c) || is_space_char(c) || c == '.' || c == ',' || c == '{' || c == '}' || c == '>'
        || c == '+'
}

/// A character allowed immediately after a class selector.
pub open spec fn is_after_class_char(c: char) -> bool {
    is_space_char(c) || c == '.' || c == ':' || c == ',' || c == '{' || c == '>' || c == '+'
}

fn class_start_char(c: char) -> (r: bool)
    ensures
        r == is_class_start_char(c),
{
    ('a' <= c && c <= 'z') || c == '_'
}

fn class_char(c: char) -> (r: bool)
    ensures
        r == is_class_char(c),
{
    word_char(c) || c == '-'
}

fn before_class_char(c: char) -> (r: bool)
    ensures
        r == is_before_class_char(c),
{
    word_char(c) || crate::text::space_char(c) || c == '.' || c == ',' || c == '{' || c == '}' || c
        == '>' || c == '+'
}

fn after_class_char(c: char) -> (r: bool)
    ensures
        r == is_after_class_char(c),
{
    crate::text::space_char(c) || c == '.' || c == ':' || c == ',' || c == '{' || c == '>' || c
        == '+'
}

/// The first offset at or after `i` that does not hold a class-name character,
/// or the end of the text.
pub open spec fn class_end(s: Seq<char>, i: int) -> int
    decreases s.len() - i,
{
    if i < 0 {
        i
    } else if i >= s.len() {
        i
    } else if is_class_char(s[i]) {
        class_end(s, i + 1)
    } else {
        i
    }
}

pub proof fn lemma_class_end_bounds(s: Seq<char>, i: int)
    requires
        0 <= i <= s.len(),
    ensures
        i <= class_end(s, i) <= s.len(),
    decreases s.len() - i,
{
    if i < s.len() && is_class_char(s[i]) {
        lemma_class_end_bounds(s, i + 1);
    }
}

fn class_end_from(text: &str, start: usize) -> (r: usize)
    requires
        start <= text@.len(),
    ensures
        r == class_end(text@, start as int),
        start <= r <= text@.len(),
{
    let n = text.unicode_len();
    let mut i: usize = start;
    while i < n && class_char(text.get_char(i))
        invariant
            start <= i <= n,
            n == text@.len(),
            class_end(text@, start as int) == class_end(text@, i as int),
        decreases n - i,
    {
        i = i + 1;
    }
    i
}

/// A class-selector token starting exactly at offset `i`: a `.` followed by a
/// class-start character and any further class characters. Yields the offsets
/// of the name (just after the `.`) and of the end of the token.
pub open spec fn class_token_at(s: Seq<char>, i: int) -> Option<(int, int)> {
    if 0 <= i && i + 1 < s.len() && s[i] == '.' && is_class_start_char(s[i + 1]) {
        Some((i + 1, class_end(s, i + 2)))
    } else {
        None
    }
}

/// The boundary rules: the character before the `.` (when one exists) and the
/// character after the token (when one exists) must belong to the allowed
/// classes; otherwise the token is rejected.
pub open spec fn class_boundary_ok(s: Seq<char>, i: int, end: int) -> bool {
    (i == 0 || is_before_class_char(s[i - 1])) && (end == s.len() || is_after_class_char(s[end]))
}

pub proof fn lemma_class_token_bounds(s: Seq<char>, i: int)
    ensures
        match class_token_at(s, i) {
            Some((nlo, end)) => 0 <= i && i < nlo < end <= s.len(),
            None => true,
        },
{
    if class_token_at(s, i) is Some {
        lemma_class_end_bounds(s, i + 2);
    }
}

/// The column recorded for a stylesheet match at offset `i`: the character
/// count from the last newline before `i` (that newline included), or 0 when
/// no newline precedes it.
pub open spec fn css_column(s: Seq<char>, i: int) -> int {
    if line_start(s, i) > 0 {
        i - line_start(s, i) + 1
    } else {
        0
    }
}

/// The class entries of the scan from offset `i` on, carrying the scanner's
/// bookkeeping state. Tokens failing the boundary rules, and names already
/// seen, are skipped without advancing the bookkeeping.
pub open spec fn scan_classes(
    s: Seq<char>,
    i: int,
    line: int,
    last_off: int,
    seen: Seq<Seq<char>>,
) -> Seq<CssClassRec>
    decreases s.len() - i,
    via scan_classes_decreases
{
    if i >= s.len() {
        Seq::empty()
    } else {
        match class_token_at(s, i) {
            None => scan_classes(s, i + 1, line, last_off, seen),
            Some((nlo, end)) => {
                if !class_boundary_ok(s, i, end) {
                    scan_classes(s, end, line, last_off, seen)
                } else {
                    let name = s.subrange(nlo, end);
                    if seen.contains(name) {
                        scan_classes(s, end, line, last_off, seen)
                    } else {
                        let new_line = line + newline_count(s, i) - newline_count(s, last_off);
                        let col = css_column(s, i);
                        let rec = CssClassRec {
                            name: name,
                            loc: Location {
                                start: Position { line: new_line as usize, column: col as usize },
                                end: Position {
                                    line: new_line as usize,
                                    column: (col + (end - nlo)) as usize,
                                },
                            },
                        };
                        seq![rec] + scan_classes(s, end, new_line, end, seen.push(name))
                    }
                }
            },
        }
    }
}

#[via_fn]
proof fn scan_classes_decreases(
    s: Seq<char>,
    i: int,
    line: int,
    last_off: int,
    seen: Seq<Seq<char>>,
) {
    lemma_class_token_bounds(s, i);
}

/// First occurrence wins: every class the scan yields has a name that is not
/// among the names already seen, and no two classes it yields share a name.
pub proof fn lemma_scan_classes_distinct(
    s: Seq<char>,
    i: int,
    line: int,
    last_off: int,
    seen: Seq<Seq<char>>,
)
    ensures
        forall|a: int|
            0 <= a < scan_classes(s, i, line, last_off, seen).len() ==> !seen.contains(
                #[trigger] scan_classes(s, i, line, last_off, seen)[a].name,
            ),
        forall|a: int, b: int|
            0 <= a < b < scan_classes(s, i, line, last_off, seen).len() ==> #[trigger] scan_classes(
                s,
                i,
                line,
                last_off,
                seen,
            )[a].name != #[trigger] scan_classes(s, i, line, last_off, seen)[b].name,
    decreases s.len() - i,
{
    lemma_class_token_bounds(s, i);
    let r = scan_classes(s, i, line, last_off, seen);
    if i < s.len() {
        match class_token_at(s, i) {
            None => {
                lemma_scan_classes_distinct(s, i + 1, line, last_off, seen);
                assert(r == scan_classes(s, i + 1, line, last_off, seen));
            },
            Some((nlo, end)) => {
                if !class_boundary_ok(s, i, end) {
                    lemma_scan_classes_distinct(s, end, line, last_off, seen);
                    assert(r == scan_classes(s, end, line, last_off, seen));
                } else {
                    let name = s.subrange(nlo, end);
                    if seen.contains(name) {
                        lemma_scan_classes_distinct(s, end, line, last_off, seen);
                        assert(r == scan_classes(s, end, line, last_off, seen));
                    } else {
                        let new_line = line + newline_count(s, i) - newline_count(s, last_off);
                        let rest = scan_classes(s, end, new_line, end, seen.push(name));
                        lemma_scan_classes_distinct(s, end, new_line, end, seen.push(name));
                        assert forall|a: int| 0 <= a < r.len() implies !seen.contains(
                            #[trigger] r[a].name,
                        ) by {
                            if a > 0 {
                                assert(r[a] == rest[a - 1]);
                                assert(!seen.push(name).contains(rest[a - 1].name));
                                assert(seen.push(name)[seen.len() as int] == name);
                                if seen.contains(rest[a - 1].name) {
                                    let w = choose|w: int|
                                        0 <= w < seen.len() && seen[w] == rest[a - 1].name;
                                    assert(seen.push(name)[w] == seen[w]);
                                }
                            }
                        }
                        assert forall|a: int, b: int| 0 <= a < b < r.len() implies #[trigger] r[a].name
                            != #[trigger] r[b].name by {
                            if a == 0 {
                                assert(r[b] == rest[b - 1]);
                                assert(!seen.push(name).contains(rest[b - 1].name));
                                assert(seen.push(name)[seen.len() as int] == name);
                            } else {
                                assert(r[a] == rest[a - 1]);
                                assert(r[b] == rest[b - 1]);
                            }
                        }
                    }
                }
            },
        }
    }
}

/// Finds the class-selector token at offset `i`.
fn try_class_token(text: &str, i: usize) -> (r: Option<(usize, usize)>)
    requires
        i <= text@.len(),
        text@.len() < usize::MAX - 17,
    ensures
        match r {
            Some((nlo, end)) => class_token_at(text@, i as int) == Some((nlo as int, end as int))
                && i < nlo < end <= text@.len(),
            None => class_token_at(text@, i as int) is None,
        },
{
    let n = text.unicode_len();
    if i + 1 >= n {
        return None;
    }
    if text.get_char(i) != '.' {
        return None;
    }
    if !class_start_char(text.get_char(i + 1)) {
        return None;
    }
    proof {
        lemma_class_end_bounds(text@, i + 2);
    }
    let end = class_end_from(text, i + 2);
    Some((i + 1, end))
}

/// Scans a stylesheet's text for class selectors and records one entry per
/// distinct accepted name, in source order, with the scanner's line/column
/// bookkeeping.
pub fn scan_css_classes(text: &str) -> (r: Vec<CssClassMeta>)
    requires
        text@.len() < usize::MAX - 17,
    ensures
        css_class_recs(r@) == scan_classes(text@, 0, 1, 0, Seq::empty()),
{
    let n = text.unicode_len();
    let mut result: Vec<CssClassMeta> = Vec::new();
    let mut seen: Vec<String> = Vec::new();
    let mut i: usize = 0;
    let mut line: usize = 1;
    let mut last_off: usize = 0;
    proof {
        assert(str_views(seen@) =~= Seq::<Seq<char>>::empty());
        assert(css_class_recs(result@) =~= Seq::<CssClassRec>::empty());
        assert(css_class_recs(result@) + scan_classes(text@, 0, 1, 0, Seq::empty()) =~= scan_classes(
            text@,
            0,
            1,
            0,
            Seq::empty(),
        ));
    }
    while i < n
        invariant
            i <= n,
            n == text@.len(),
            n < usize::MAX - 17,
            last_off <= i,
            1 <= line,
            line <= 1 + newline_count(text@, last_off as int),
            css_class_recs(result@) + scan_classes(
                text@,
                i as int,
                line as int,
                last_off as int,
                str_views(seen@),
            ) == scan_classes(text@, 0, 1, 0, Seq::empty()),
        decreases n - i,
    {
        proof {
            lemma_newline_count_bounds(text@, last_off as int);
        }
        match try_class_token(text, i) {
            Some((nlo, end)) => {
                let front_ok = if i == 0 {
                    true
                } else {
                    before_class_char(text.get_char(i - 1))
                };
                let back_ok = if end == n {
                    true
                } else {
                    after_class_char(text.get_char(end))
                };
                if !(front_ok && back_ok) {
                    i = end;
                } else {
                    let name = text.substring_char(nlo, end).to_owned();
                    if crate::text::contains_string(&seen, name.as_str()) {
                        i = end;
                    } else {
                        let (nc_i, ls_i) = crate::text::scan_line_col(text, i);
                        let (nc_last, _ls_last) = crate::text::scan_line_col(text, last_off);
                        proof {
                            lemma_newline_count_monotone(text@, last_off as int, i as int);
                            lemma_newline_count_monotone(text@, i as int, end as int);
                            lemma_newline_count_bounds(text@, i as int);
                            lemma_line_start_bounds(text@, i as int);
                        }
                        line = line + (nc_i - nc_last);
                        let col = if ls_i > 0 {
                            i - ls_i + 1
                        } else {
                            0
                        };
                        let name_len = end - nlo;
                        let mut class_meta = CssClassMeta::new(name.clone());
                        class_meta.loc = Location {
                            start: Position { line, column: col },
                            end: Position { line, column: col + name_len },
                        };
                        proof {
                            let ghost old_seen = str_views(seen@);
                            assert(scan_classes(
                                text@,
                                i as int,
                                line as int - (nc_i - nc_last),
                                last_off as int,
                                old_seen,
                            ) == seq![css_class_rec(class_meta)] + scan_classes(
                                text@,
                                end as int,
                                line as int,
                                end as int,
                                old_seen.push(name@),
                            ));
                            assert(str_views(seen@.push(name)) =~= old_seen.push(name@));
                            assert(css_class_recs(result@.push(class_meta)) =~= css_class_recs(
                                result@,
                            ).push(css_class_rec(class_meta)));
                            assert(css_class_recs(result@.push(class_meta)) + scan_classes(
                                text@,
                                end as int,
                                line as int,
                                end as int,
                                old_seen.push(name@),
                            ) =~= css_class_recs(result@) + (seq![css_class_rec(class_meta)]
                                + scan_classes(
                                text@,
                                end as int,
                                line as int,
                                end as int,
                                old_seen.push(name@),
                            )));
                        }
                        result.push(class_meta);
                        seen.push(name);
                        last_off = end;
                        i = end;
                    }
                }
            },
            None => {
                i = i + 1;
            },
        }
    }
    proof {
        assert(scan_classes(text@, i as int, line as int, last_off as int, str_views(seen@))
            =~= Seq::<CssClassRec>::empty());
        assert(css_class_recs(result@) + Seq::<CssClassRec>::empty() =~= css_class_recs(result@));
    }
    result
}

/// The first offset at or after `i` that holds a quotation mark, or the end
/// of the text.
pub open spec fn nonquote_end(s: Seq<char>, i: int) -> int
    decreases s.len() - i,
{
    if i < 0 {
        i
    } else if i >= s.len() {
        i
    } else if !is_quote_char(s[i]) {
        nonquote_end(s, i + 1)
    } else {
        i
    }
}

pub proof fn lemma_nonquote_end_bounds(s: Seq<char>, i: int)
    requires
        0 <= i <= s.len(),
    ensures
        i <= nonquote_end(s, i) <= s.len(),
    decreases s.len() - i,
{
    if i < s.len() && !is_quote_char(s[i]) {
        lemma_nonquote_end_bounds(s, i + 1);
    }
}

fn nonquote_end_from(text: &str, start: usize) -> (r: usize)
    requires
        start <= text@.len(),
    ensures
        r == nonquote_end(text@, start as int),
        start <= r <= text@.len(),
{
    let n = text.unicode_len();
    let mut i: usize = start;
    while i < n && !quote_char(text.get_char(i))
        invariant
            start <= i <= n,
            n == text@.len(),
            nonquote_end(text@, start as int) == nonquote_end(text@, i as int),
        decreases n - i,
    {
        i = i + 1;
    }
    i
}

/// An import directive starting exactly at offset `i`: the literal `@import`,
/// at least one whitespace character, an optional `url(` immediately followed
/// by a quote, a quote, a non-empty run of unquoted characters (the path),
/// and a quote. Yields the path's span and the offset just past the match.
pub open spec fn import_match(s: Seq<char>, i: int) -> Option<(int, int, int)> {
    if !lit_at(s, i, "@import"@) {
        None
    } else {
        let j = skip_spaces(s, i + "@import"@.len());
        if j == i + "@import"@.len() {
            None
        } else {
            let k = if lit_at(s, j, "url("@) && j + "url("@.len() < s.len() && is_quote_char(
                s[j + "url("@.len()],
            ) {
                j + "url("@.len()
            } else {
                j
            };
            if k < s.len() && is_quote_char(s[k]) {
                let e = nonquote_end(s, k + 1);
                if e > k + 1 && e < s.len() && is_quote_char(s[e]) {
                    Some((k + 1, e, e + 1))
                } else {
                    None
                }
            } else {
                None
            }
        }
    }
}

pub proof fn lemma_import_match_bounds(s: Seq<char>, i: int)
    ensures
        match import_match(s, i) {
            Some((ulo, uhi, end)) => 0 <= i && i < ulo <= uhi < end <= s.len(),
            None => true,
        },
{
    if import_match(s, i) is Some {
        reveal_strlit("@import");
        reveal_strlit("url(");
        lemma_skip_spaces_bounds(s, i + 7);
        let j = skip_spaces(s, i + 7);
        let k = if lit_at(s, j, "url("@) && j + 4 < s.len() && is_quote_char(s[j + 4]) {
            j + 4
        } else {
            j
        };
        lemma_nonquote_end_bounds(s, k + 1);
    }
}

/// The captured paths of every import directive from offset `i` on, in source
/// order, without deduplication.
pub open spec fn scan_imports(s: Seq<char>, i: int) -> Seq<Seq<char>>
    decreases s.len() - i,
    via scan_imports_decreases
{
    if i >= s.len() {
        Seq::empty()
    } else {
        match import_match(s, i) {
            None => scan_imports(s, i + 1),
            Some((ulo, uhi, end)) => seq![s.subrange(ulo, uhi)] + scan_imports(s, end),
        }
    }
}

#[via_fn]
proof fn scan_imports_decreases(s: Seq<char>, i: int) {
    lemma_import_match_bounds(s, i);
}

/// Finds the import directive at offset `i`.
fn try_import_match(text: &str, i: usize) -> (r: Option<(usize, usize, usize)>)
    requires
        i <= text@.len(),
        text@.len() < usize::MAX - 17,
    ensures
        match r {
            Some((ulo, uhi, end)) => import_match(text@, i as int) == Some(
                (ulo as int, uhi as int, end as int),
            ) && i < ulo <= uhi < end <= text@.len(),
            None => import_match(text@, i as int) is None,
        },
{
    let n = text.unicode_len();
    if !lit_match(text, i, "@import") {
        return None;
    }
    proof {
        reveal_strlit("@import");
        reveal_strlit("url(");
        lemma_import_match_bounds(text@, i as int);
    }
    let j = skip_spaces_from(text, i + 7);
    if j == i + 7 {
        return None;
    }
    let k = if lit_match(text, j, "url(") && j + 4 < n && quote_char(text.get_char(j + 4)) {
        j + 4
    } else {
        j
    };
    if k >= n || !quote_char(text.get_char(k)) {
        return None;
    }
    let e = nonquote_end_from(text, k + 1);
    if e > k + 1 && e < n && quote_char(text.get_char(e)) {
        Some((k + 1, e, e + 1))
    } else {
        None
    }
}

/// Collects the captured path of every import directive in the text, in
/// source order.
pub fn scan_import_paths(text: &str) -> (r: Vec<String>)
    requires
        text@.len() < usize::MAX - 17,
    ensures
        str_views(r@) == scan_imports(text@, 0),
{
    let n = text.unicode_len();
    let mut result: Vec<String> = Vec::new();
    let mut i: usize = 0;
    proof {
        assert(str_views(result@) =~= Seq::<Seq<char>>::empty());
        assert(str_views(result@) + scan_imports(text@, 0) =~= scan_imports(text@, 0));
    }
    while i < n
        invariant
            i <= n,
            n == text@.len(),
            n < usize::MAX - 17,
            str_views(result@) + scan_imports(text@, i as int) == scan_imports(text@, 0),
        decreases n - i,
    {
        match try_import_match(text, i) {
            Some((ulo, uhi, end)) => {
                let path = text.substring_char(ulo, uhi).to_owned();
                proof {
                    assert(str_views(result@.push(path)) =~= str_views(result@).push(path@));
                    assert(str_views(result@.push(path)) + scan_imports(text@, end as int)
                        =~= str_views(result@) + (seq![path@] + scan_imports(text@, end as int)));
                }
                result.push(path);
                i = end;
            },
            None => {
                i = i + 1;
            },
        }
    }
    result
}

/// Scans a stylesheet's text: its class entries as a `CssMeta` without an
/// import list, beside the raw (unresolved) paths of its import directives.
pub fn scan_stylesheet(text: &str) -> (r: (CssMeta, Vec<String>))
    requires
        text@.len() < usize::MAX - 17,
    ensures
        css_class_recs(r.0.classes@) == scan_classes(text@, 0, 1, 0, Seq::empty()),
        r.0.imports is None,
        str_views(r.1@) == scan_imports(text@, 0),
{
    let classes = scan_css_classes(text);
    let imports = scan_import_paths(text);
    (CssMeta::new(classes), imports)
}

} // verus!
