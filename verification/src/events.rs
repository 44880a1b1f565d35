//! The event scanner: a text scan over the raw source for event-emission call
//! sites of the form `this.triggerEvent("name")` (single or double quotes,
//! arbitrary whitespace around the opening parenthesis), independent of the
//! syntax tree. Event names are deduplicated, first occurrence wins, and each
//! occurrence records an approximate location whose width is the fixed
//! 17-character length of `this.triggerEvent`.

use vstd::prelude::*;

use crate::ast::{comment_at, CommentEntry};
use crate::meta::{event_rec, event_recs, EventMeta, Location, NamedRec, Position};
use crate::text::{
    is_quote_char, lemma_line_start_bounds, lemma_newline_count_bounds,
    lemma_newline_count_monotone, lemma_skip_spaces_bounds, lemma_word_end_bounds, line_start,
    lit_at, lit_match, newline_count, quote_char, skip_spaces, skip_spaces_from, str_views,
    word_end, word_end_from,
};

verus! {

/// A match of the event-emission pattern starting exactly at offset `i`: the
/// literal `this.triggerEvent`, optional whitespace, `(`, optional whitespace,
/// a quote, a non-empty run of word characters (the event name), and a quote.
/// Yields the name's span and the offset just past the match.
pub open spec fn event_match(s: Seq<char>, i: int) -> Option<(int, int, int)> {
    if !lit_at(s, i, "this.triggerEvent"@) {
        None
    } else {
        let j = skip_spaces(s, i + "this.triggerEvent"@.len());
        if j < s.len() && s[j] == '(' {
            let k = skip_spaces(s, j + 1);
            if k < s.len() && is_quote_char(s[k]) {
                let m = word_end(s, k + 1);
                if m > k + 1 && m < s.len() && is_quote_char(s[m]) {
                    Some((k + 1, m, m + 1))
                } else {
                    None
                }
            } else {
                None
            }
        } else {
            None
        }
    }
}

pub proof fn lemma_event_match_bounds(s: Seq<char>, i: int)
    ensures
        match event_match(s, i) {
            Some((nlo, nhi, end)) => i < nlo <= nhi < end <= s.len() && 0 <= i,
            None => true,
        },
{
    if event_match(s, i) is Some {
        reveal_strlit("this.triggerEvent");
        lemma_skip_spaces_bounds(s, i + 17);
        let j = skip_spaces(s, i + 17);
        lemma_skip_spaces_bounds(s, j + 1);
        let k = skip_spaces(s, j + 1);
        lemma_word_end_bounds(s, k + 1);
    }
}

/// The column recorded for a scanner match at offset `i`: the distance from
/// the last newline before `i`, or 0 when no newline precedes it.
pub open spec fn match_column(s: Seq<char>, i: int) -> int {
    if line_start(s, i) > 0 {
        i - line_start(s, i)
    } else {
        0
    }
}

/// The event entries of the scan from offset `i` on, carrying the scanner's
/// bookkeeping state: the line reached at the last accepted match, the offset
/// just past it, and the names seen so far.
pub open spec fn scan_events(
    s: Seq<char>,
    cm: Seq<CommentEntry>,
    i: int,
    line: int,
    last_off: int,
    seen: Seq<Seq<char>>,
) -> Seq<NamedRec>
    decreases s.len() - i,
    via scan_events_decreases
{
    if i >= s.len() {
        Seq::empty()
    } else {
        match event_match(s, i) {
            None => scan_events(s, cm, i + 1, line, last_off, seen),
            Some((nlo, nhi, end)) => {
                let name = s.subrange(nlo, nhi);
                if seen.contains(name) {
                    scan_events(s, cm, end, line, last_off, seen)
                } else {
                    let new_line = line + newline_count(s, i) - newline_count(s, last_off);
                    let col = match_column(s, i);
                    let rec = NamedRec {
                        name: name,
                        comment: comment_at(cm, i),
                        loc: Location {
                            start: Position { line: new_line as usize, column: col as usize },
                            end: Position {
                                line: new_line as usize,
                                column: (col + 17) as usize,
                            },
                        },
                    };
                    seq![rec] + scan_events(s, cm, end, new_line, end, seen.push(name))
                }
            },
        }
    }
}

#[via_fn]
proof fn scan_events_decreases(
    s: Seq<char>,
    cm: Seq<CommentEntry>,
    i: int,
    line: int,
    last_off: int,
    seen: Seq<Seq<char>>,
) {
    lemma_event_match_bounds(s, i);
}

/// First occurrence wins: every event the scan yields has a name that is not
/// among the names already seen, and no two events it yields share a name.
pub proof fn lemma_scan_events_distinct(
    s: Seq<char>,
    cm: Seq<CommentEntry>,
    i: int,
    line: int,
    last_off: int,
    seen: Seq<Seq<char>>,
)
    ensures
        forall|a: int|
            0 <= a < scan_events(s, cm, i, line, last_off, seen).len() ==> !seen.contains(
                #[trigger] scan_events(s, cm, i, line, last_off, seen)[a].name,
            ),
        forall|a: int, b: int|
            0 <= a < b < scan_events(s, cm, i, line, last_off, seen).len() ==> #[trigger] scan_events(
                s,
                cm,
                i,
                line,
                last_off,
                seen,
            )[a].name != #[trigger] scan_events(s, cm, i, line, last_off, seen)[b].name,
    decreases s.len() - i,
{
    lemma_event_match_bounds(s, i);
    let r = scan_events(s, cm, i, line, last_off, seen);
    if i < s.len() {
        match event_match(s, i) {
            None => {
                lemma_scan_events_distinct(s, cm, i + 1, line, last_off, seen);
            },
            Some((nlo, nhi, end)) => {
                let name = s.subrange(nlo, nhi);
                if seen.contains(name) {
                    lemma_scan_events_distinct(s, cm, end, line, last_off, seen);
                } else {
                    let new_line = line + newline_count(s, i) - newline_count(s, last_off);
                    let rest = scan_events(s, cm, end, new_line, end, seen.push(name));
                    lemma_scan_events_distinct(s, cm, end, new_line, end, seen.push(name));
                    assert forall|a: int| 0 <= a < r.len() implies !seen.contains(
                        #[trigger] r[a].name,
                    ) by {
                        if a > 0 {
                            assert(r[a] == rest[a - 1]);
                            assert(!seen.push(name).contains(rest[a - 1].name));
                            assert(seen.push(name)[seen.len() as int] == name);
                            if seen.contains(rest[a - 1].name) {
                                let w = choose|w: int|
                                    0 <= w < seen.len() && seen[w] == rest[a - 1].name;
                                assert(seen.push(name)[w] == seen[w]);
                            }
                        }
                    }
                    assert forall|a: int, b: int| 0 <= a < b < r.len() implies #[trigger] r[a].name
                        != #[trigger] r[b].name by {
                        if a == 0 {
                            assert(r[b] == rest[b - 1]);
                            assert(!seen.push(name).contains(rest[b - 1].name));
                            assert(seen.push(name)[seen.len() as int] == name);
                        } else {
                            assert(r[a] == rest[a - 1]);
                            assert(r[b] == rest[b - 1]);
                        }
                    }
                }
            },
        }
    }
}

/// Finds the event-emission pattern at offset `i`, yielding the name span and
/// the end of the match.
fn try_event_match(text: &str, i: usize) -> (r: Option<(usize, usize, usize)>)
    requires
        i <= text@.len(),
        text@.len() < usize::MAX - 17,
    ensures
        match r {
            Some((nlo, nhi, end)) => event_match(text@, i as int) == Some(
                (nlo as int, nhi as int, end as int),
            ) && i < nlo <= nhi < end <= text@.len(),
            None => event_match(text@, i as int) is None,
        },
{
    let n = text.unicode_len();
    if !lit_match(text, i, "this.triggerEvent") {
        return None;
    }
    proof {
        reveal_strlit("this.triggerEvent");
        lemma_event_match_bounds(text@, i as int);
    }
    let j = skip_spaces_from(text, i + 17);
    if j >= n || text.get_char(j) != '(' {
        return None;
    }
    let k = skip_spaces_from(text, j + 1);
    if k >= n || !quote_char(text.get_char(k)) {
        return None;
    }
    let m = word_end_from(text, k + 1);
    if m > k + 1 && m < n && quote_char(text.get_char(m)) {
        Some((k + 1, m, m + 1))
    } else {
        None
    }
}

/// Scans the raw source text for `this.triggerEvent` call sites and records
/// one event per distinct name, in source order, with the scanner's
/// line/column bookkeeping and the leading comment attached at the match
/// start.
pub fn parse_trigger_event(comments: &Vec<CommentEntry>, text: &str) -> (r: Vec<EventMeta>)
    requires
        text@.len() < usize::MAX - 17,
    ensures
        event_recs(r@) == scan_events(text@, comments@, 0, 1, 0, Seq::empty()),
{
    let n = text.unicode_len();
    let mut result: Vec<EventMeta> = Vec::new();
    let mut seen: Vec<String> = Vec::new();
    let mut i: usize = 0;
    let mut line: usize = 1;
    let mut last_off: usize = 0;
    proof {
        assert(str_views(seen@) =~= Seq::<Seq<char>>::empty());
        assert(event_recs(result@) =~= Seq::<NamedRec>::empty());
        assert(event_recs(result@) + scan_events(text@, comments@, 0, 1, 0, Seq::empty())
            =~= scan_events(text@, comments@, 0, 1, 0, Seq::empty()));
    }
    while i < n
        invariant
            i <= n,
            n == text@.len(),
            n < usize::MAX - 17,
            last_off <= i,
            1 <= line,
            line <= 1 + newline_count(text@, last_off as int),
            event_recs(result@) + scan_events(
                text@,
                comments@,
                i as int,
                line as int,
                last_off as int,
                str_views(seen@),
            ) == scan_events(text@, comments@, 0, 1, 0, Seq::empty()),
        decreases n - i,
    {
        proof {
            lemma_newline_count_bounds(text@, last_off as int);
        }
        match try_event_match(text, i) {
            Some((nlo, nhi, end)) => {
                let name = text.substring_char(nlo, nhi).to_owned();
                if crate::text::contains_string(&seen, name.as_str()) {
                    i = end;
                } else {
                    let (nc_i, ls_i) = crate::text::scan_line_col(text, i);
                    let (nc_last, _ls_last) = crate::text::scan_line_col(text, last_off);
                    proof {
                        lemma_newline_count_monotone(text@, last_off as int, i as int);
                        lemma_newline_count_monotone(text@, i as int, end as int);
                        lemma_newline_count_bounds(text@, i as int);
                        lemma_line_start_bounds(text@, i as int);
                    }
                    line = line + (nc_i - nc_last);
                    let col = if ls_i > 0 {
                        i - ls_i
                    } else {
                        0
                    };
                    let mut event = EventMeta::new(name.clone());
                    event.loc = Location {
                        start: Position { line, column: col },
                        end: Position { line, column: col + 17 },
                    };
                    event.comment = crate::ast::get_comment(i, comments);
                    proof {
                        let ghost old_seen = str_views(seen@);
                        assert(!old_seen.contains(name@));
                        assert(scan_events(
                            text@,
                            comments@,
                            i as int,
                            line as int - (nc_i - nc_last),
                            last_off as int,
                            old_seen,
                        ) == seq![event_rec(event)] + scan_events(
                            text@,
                            comments@,
                            end as int,
                            line as int,
                            end as int,
                            old_seen.push(name@),
                        ));
                        assert(str_views(seen@.push(name)) =~= old_seen.push(name@));
                        assert(event_recs(result@.push(event)) =~= event_recs(result@).push(
                            event_rec(event),
                        ));
                        assert(event_recs(result@.push(event)) + scan_events(
                            text@,
                            comments@,
                            end as int,
                            line as int,
                            end as int,
                            old_seen.push(name@),
                        ) =~= event_recs(result@) + (seq![event_rec(event)] + scan_events(
                            text@,
                            comments@,
                            end as int,
                            line as int,
                            end as int,
                            old_seen.push(name@),
                        )));
                    }
                    result.push(event);
                    seen.push(name);
                    last_off = end;
                    i = end;
                }
            },
            None => {
                i = i + 1;
            },
        }
    }
    proof {
        assert(scan_events(
            text@,
            comments@,
            i as int,
            line as int,
            last_off as int,
            str_views(seen@),
        ) =~= Seq::<NamedRec>::empty());
        assert(event_recs(result@) + Seq::<NamedRec>::empty() =~= event_recs(result@));
    }
    result
}

} // verus!
