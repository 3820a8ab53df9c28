//! Text objects found by a regular expression within one line: URLs,
//! e-mail addresses, numbers and hex colours.

use vstd::prelude::*;

use std::ops::Range;

use regex::Regex;

use super::{SelectionMode, TextObjectMatcher, TextSource};
use crate::buffer::grapheme::{
    char_index_of, lemma_char_index_unique, lemma_utf8_len_increasing, on_char_boundary,
    str_byte_to_char, str_char_to_byte, utf8_len,
};
use crate::buffer::lines::{
    lemma_later_line_after, lemma_line_of_bounds, lemma_line_of_in_range, lemma_line_start_bounds,
    lemma_line_start_monotonic, line_count, line_end, line_of, line_start,
};

verus! {

#[verifier::external_type_specification]
#[verifier::external_body]
pub struct ExRegex(regex::Regex);

#[verifier::external_type_specification]
#[verifier::external_body]
pub struct ExRegexError(regex::Error);

pub const URL_PATTERN: &'static str = r#"https?://[^\s<>"']+|www\.[^\s<>"']+"#;

pub const EMAIL_PATTERN: &'static str = r"\b[A-Za-z0-9._%+\-]+@[A-Za-z0-9.\-]+\.[A-Za-z]{2,}\b";

pub const NUMBER_PATTERN: &'static str = r"-?\d+\.?\d*";

pub const HEX_COLOR_PATTERN: &'static str = r"#[0-9a-fA-F]{6}|#[0-9a-fA-F]{3}";

/// Byte ranges of matches in `t`: each in order and on character
/// boundaries, each ending before the next starts.
pub open spec fn byte_matches_ok(t: Seq<char>, ms: Seq<(usize, usize)>) -> bool {
    &&& forall|i: int|
        0 <= i < ms.len() ==> (#[trigger] ms[i]).0 <= ms[i].1 && on_char_boundary(t, ms[i].0 as int)
            && on_char_boundary(t, ms[i].1 as int)
    &&& forall|i: int, j: int| 0 <= i < j < ms.len() ==> (#[trigger] ms[i]).1 <= (#[trigger] ms[j]).0
}

/// A byte range of a match found at or after `start` in `t`.
pub open spec fn byte_match_from(t: Seq<char>, start: int, m: Option<(usize, usize)>) -> bool {
    m matches Some(m) ==> start <= m.0 <= m.1 && on_char_boundary(t, m.0 as int) && on_char_boundary(
        t,
        m.1 as int,
    )
}

/// Whether `pattern` is a regular expression that `Regex::new` accepts.
pub uninterp spec fn regex_compiles(pattern: Seq<char>) -> bool;

/// The pattern a compiled regex was built from, as `Regex::as_str` gives it.
pub uninterp spec fn regex_source(re: Regex) -> Seq<char>;

/// Byte ranges of the successive non-overlapping matches of `pattern` in
/// `text`, as `Regex::find_iter` yields them.
pub uninterp spec fn regex_matches_of(pattern: Seq<char>, text: Seq<char>) -> Seq<(int, int)>;

/// Byte range of the leftmost match of `pattern` in `text` that starts at
/// or after byte `start`, as `Regex::find_at` finds it.
pub uninterp spec fn regex_match_from(pattern: Seq<char>, text: Seq<char>, start: int) -> Option<(int, int)>;

/// Pairs of offsets as integers.
pub open spec fn pairs_view(ms: Seq<(usize, usize)>) -> Seq<(int, int)> {
    ms.map_values(|m: (usize, usize)| (m.0 as int, m.1 as int))
}

/// An optional pair of offsets as integers.
pub open spec fn pair_opt_view(m: Option<(usize, usize)>) -> Option<(int, int)> {
    match m {
        Some((s, e)) => Some((s as int, e as int)),
        None => None,
    }
}

/// Relies on `Regex::new`: the compiled pattern, whose `as_str` is the
/// pattern itself, or why it does not compile; which of the two depends on
/// the pattern alone.
#[verifier::external_body]
fn compile(pattern: &str) -> (r: Result<Regex, regex::Error>)
    ensures
        r matches Ok(re) ==> regex_source(re) == pattern@,
        (r matches Ok(_)) == regex_compiles(pattern@),
{
    Regex::new(pattern)
}

/// Relies on `Regex::find_iter`: the successive non-overlapping matches in
/// `text`, as byte ranges on character boundaries.
#[verifier::external_body]
fn byte_matches(re: &Regex, text: &str) -> (r: Vec<(usize, usize)>)
    ensures
        pairs_view(r@) == regex_matches_of(regex_source(*re), text@),
        byte_matches_ok(text@, r@),
{
    re.find_iter(text).map(|m| (m.start(), m.end())).collect()
}

/// Relies on `Regex::find_at`: the leftmost match that starts at or after
/// byte `start`, which may be one past the end but not beyond.
#[verifier::external_body]
fn byte_match_at(re: &Regex, text: &str, start: usize) -> (r: Option<(usize, usize)>)
    requires
        on_char_boundary(text@, start as int),
    ensures
        pair_opt_view(r) == regex_match_from(regex_source(*re), text@, start as int),
        byte_match_from(text@, start as int, r),
{
    re.find_at(text, start).map(|m| (m.start(), m.end()))
}

/// The first of `ms` whose half-open range holds `offset`.
pub open spec fn first_covering_spec(ms: Seq<(int, int)>, offset: int) -> Option<(int, int)>
    decreases ms.len(),
{
    if ms.len() == 0 {
        None
    } else if ms[0].0 <= offset < ms[0].1 {
        Some(ms[0])
    } else {
        first_covering_spec(ms.drop_first(), offset)
    }
}

/// The last of `ms` that starts before `limit`.
pub open spec fn last_starting_before_spec(ms: Seq<(int, int)>, limit: int) -> Option<(int, int)>
    decreases ms.len(),
{
    if ms.len() == 0 {
        None
    } else if ms.last().0 < limit {
        Some(ms.last())
    } else {
        last_starting_before_spec(ms.drop_last(), limit)
    }
}

/// The first range of `ms` that holds `offset`.
pub fn first_covering(ms: &[(usize, usize)], offset: usize) -> (r: Option<(usize, usize)>)
    ensures
        pair_opt_view(r) == first_covering_spec(pairs_view(ms@), offset as int),
{
    let ghost v = pairs_view(ms@);
    let mut i: usize = 0;
    assert(v.skip(0) =~= v);
    while i < ms.len()
        invariant
            i <= ms@.len(),
            v == pairs_view(ms@),
            first_covering_spec(v.skip(i as int), offset as int) == first_covering_spec(v, offset as int),
        decreases ms@.len() - i,
    {
        assert(v.skip(i as int).drop_first() =~= v.skip(i + 1));
        assert(v.skip(i as int)[0] == v[i as int]);
        let (s, e) = ms[i];
        if s <= offset && offset < e {
            return Some((s, e));
        }
        i = i + 1;
    }
    None
}

/// The last range of `ms` that starts before `limit`.
pub fn last_starting_before(ms: &[(usize, usize)], limit: usize) -> (r: Option<(usize, usize)>)
    ensures
        pair_opt_view(r) == last_starting_before_spec(pairs_view(ms@), limit as int),
{
    let ghost v = pairs_view(ms@);
    let mut k: usize = ms.len();
    assert(v.take(k as int) =~= v);
    while k > 0
        invariant
            k <= ms@.len(),
            v == pairs_view(ms@),
            last_starting_before_spec(v.take(k as int), limit as int) == last_starting_before_spec(v, limit as int),
        decreases k,
    {
        assert(v.take(k as int).drop_last() =~= v.take(k - 1));
        assert(v.take(k as int).last() == v[k - 1]);
        let (s, e) = ms[k - 1];
        if s < limit {
            return Some((s, e));
        }
        k = k - 1;
    }
    None
}

/// Byte ranges of `t` as character ranges.
pub open spec fn char_ranges(t: Seq<char>, ms: Seq<(int, int)>) -> Seq<(int, int)> {
    ms.map_values(|m: (int, int)| (char_index_of(t, m.0), char_index_of(t, m.1)))
}

/// An optional byte range of `t` as a character range.
pub open spec fn char_range_opt(t: Seq<char>, m: Option<(int, int)>) -> Option<(int, int)> {
    match m {
        Some((s, e)) => Some((char_index_of(t, s), char_index_of(t, e))),
        None => None,
    }
}

/// A range moved right by `by`.
pub open spec fn shifted_by(r: Option<(int, int)>, by: int) -> Option<(int, int)> {
    match r {
        Some((s, e)) => Some((s + by, e + by)),
        None => None,
    }
}

/// The characters of line `k` of `t`, its newline included.
pub open spec fn line_text(t: Seq<char>, k: nat) -> Seq<char> {
    t.subrange(line_start(t, k), line_end(t, k))
}

/// The first match of `p` on the line of `pos` that holds `pos`.
pub open spec fn regex_at(src: Option<Seq<char>>, t: Seq<char>, pos: int) -> Option<(int, int)> {
    match src {
        Some(p) => if 0 <= pos <= t.len() {
            let k = line_of(t, pos);
            let line = line_text(t, k);
            shifted_by(
                first_covering_spec(char_ranges(line, regex_matches_of(p, line)), pos - line_start(t, k)),
                line_start(t, k),
            )
        } else {
            None
        },
        None => None,
    }
}

/// The match of `p` that a forward search on line `k` finds: past `pos` on
/// the line of `pos`, anywhere on a later line.
pub open spec fn next_in_line(p: Seq<char>, t: Seq<char>, pos: int, k: nat) -> Option<(int, int)> {
    let ls = line_start(t, k);
    let line = line_text(t, k);
    if k == line_of(t, pos) {
        if pos - ls < line.len() {
            shifted_by(char_range_opt(line, regex_match_from(p, line, utf8_len(line.take(pos - ls + 1)))), ls)
        } else {
            None
        }
    } else {
        shifted_by(char_range_opt(line, regex_match_from(p, line, utf8_len(line.take(0)))), ls)
    }
}

/// The first match a forward search finds on line `k` or below.
pub open spec fn regex_next_from(p: Seq<char>, t: Seq<char>, pos: int, k: nat) -> Option<(int, int)>
    decreases line_count(t) - k,
{
    if k < line_count(t) {
        match next_in_line(p, t, pos, k) {
            Some(r) => Some(r),
            None => regex_next_from(p, t, pos, k + 1),
        }
    } else {
        None
    }
}

/// The first match after `pos`, line by line from the line of `pos`.
pub open spec fn regex_next(src: Option<Seq<char>>, t: Seq<char>, pos: int) -> Option<(int, int)> {
    match src {
        Some(p) => if 0 <= pos <= t.len() {
            regex_next_from(p, t, pos, line_of(t, pos))
        } else {
            None
        },
        None => None,
    }
}

/// The last match on line `k` that starts before `pos`.
pub open spec fn prev_in_line(p: Seq<char>, t: Seq<char>, pos: int, k: nat) -> Option<(int, int)> {
    let ls = line_start(t, k);
    let line = line_text(t, k);
    if pos >= ls {
        shifted_by(last_starting_before_spec(char_ranges(line, regex_matches_of(p, line)), pos - ls), ls)
    } else {
        None
    }
}

/// The first match a backward search finds on line `k` or above.
pub open spec fn regex_prev_from(p: Seq<char>, t: Seq<char>, pos: int, k: int) -> Option<(int, int)>
    decreases k + 1,
{
    if k < 0 {
        None
    } else {
        match prev_in_line(p, t, pos, k as nat) {
            Some(r) => Some(r),
            None => regex_prev_from(p, t, pos, k - 1),
        }
    }
}

/// The match starting latest before `pos`, line by line up from the line of
/// `pos`.
pub open spec fn regex_prev(src: Option<Seq<char>>, t: Seq<char>, pos: int) -> Option<(int, int)> {
    match src {
        Some(p) => if 0 <= pos <= t.len() {
            regex_prev_from(p, t, pos, line_of(t, pos) as int)
        } else {
            None
        },
        None => None,
    }
}

/// Byte ranges of `text` as character ranges, in the same order.
fn to_char_ranges(text: &str, ms: &Vec<(usize, usize)>) -> (r: Vec<(usize, usize)>)
    requires
        byte_matches_ok(text@, ms@),
    ensures
        pairs_view(r@) == char_ranges(text@, pairs_view(ms@)),
        forall|i: int|
            0 <= i < r@.len() ==> (#[trigger] r@[i]).0 <= text@.len() && r@[i].1 <= text@.len(),
{
    let mut out: Vec<(usize, usize)> = Vec::new();
    let mut i: usize = 0;
    while i < ms.len()
        invariant
            i <= ms@.len(),
            out@.len() == i,
            byte_matches_ok(text@, ms@),
            pairs_view(out@) == char_ranges(text@, pairs_view(ms@)).take(i as int),
            forall|k: int|
                0 <= k < out@.len() ==> (#[trigger] out@[k]).0 <= text@.len() && out@[k].1 <= text@.len(),
        decreases ms@.len() - i,
    {
        let (s, e) = ms[i];
        let cs = str_byte_to_char(text, s);
        let ce = str_byte_to_char(text, e);
        proof {
            lemma_char_index_unique(text@, cs as int, s as int);
            lemma_char_index_unique(text@, ce as int, e as int);
        }
        out.push((cs, ce));
        proof {
            assert(pairs_view(out@) =~= char_ranges(text@, pairs_view(ms@)).take(i + 1));
        }
        i = i + 1;
    }
    proof {
        assert(char_ranges(text@, pairs_view(ms@)).take(ms@.len() as int) =~= char_ranges(text@, pairs_view(ms@)));
    }
    out
}

/// Finds text objects by a regular expression, one line at a time.
#[derive(Debug)]
pub struct RegexMatcher {
    pattern: Option<Regex>,
}

impl RegexMatcher {
    /// The pattern, if it compiled.
    pub closed spec fn source(&self) -> Option<Seq<char>> {
        match self.pattern {
            Some(re) => Some(regex_source(re)),
            None => None,
        }
    }

    fn compiled(pattern: &str) -> (r: Self)
        ensures
            r.source() == (if regex_compiles(pattern@) { Some(pattern@) } else { None }),
    {
        match compile(pattern) {
            Ok(re) => RegexMatcher { pattern: Some(re) },
            Err(_) => RegexMatcher { pattern: None },
        }
    }

    pub fn url() -> (r: Self)
        ensures
            r.source() == (if regex_compiles(URL_PATTERN@) { Some(URL_PATTERN@) } else { None }),
    {
        Self::compiled(URL_PATTERN)
    }

    pub fn email() -> (r: Self)
        ensures
            r.source() == (if regex_compiles(EMAIL_PATTERN@) { Some(EMAIL_PATTERN@) } else { None }),
    {
        Self::compiled(EMAIL_PATTERN)
    }

    pub fn number() -> (r: Self)
        ensures
            r.source() == (if regex_compiles(NUMBER_PATTERN@) { Some(NUMBER_PATTERN@) } else { None }),
    {
        Self::compiled(NUMBER_PATTERN)
    }

    pub fn hex_color() -> (r: Self)
        ensures
            r.source() == (if regex_compiles(HEX_COLOR_PATTERN@) { Some(HEX_COLOR_PATTERN@) } else { None }),
    {
        Self::compiled(HEX_COLOR_PATTERN)
    }

    /// The first match in `text` whose range holds character `offset`.
    fn find_in_text(&self, text: &str, offset: usize) -> (r: Option<(usize, usize)>)
        ensures
            pair_opt_view(r) == match self.source() {
                Some(p) => first_covering_spec(char_ranges(text@, regex_matches_of(p, text@)), offset as int),
                None => None,
            },
            r matches Some((s, e)) ==> s <= offset < e && e <= text@.len(),
    {
        let re = match &self.pattern {
            Some(re) => re,
            None => return None,
        };
        let bytes = byte_matches(re, text);
        let chars = to_char_ranges(text, &bytes);
        let r = first_covering(chars.as_slice(), offset);
        proof {
            lemma_first_covering_holds(pairs_view(chars@), offset as int, text@.len() as int);
        }
        r
    }
}

proof fn lemma_first_covering_holds(ms: Seq<(int, int)>, offset: int, len: int)
    requires
        forall|i: int| 0 <= i < ms.len() ==> (#[trigger] ms[i]).1 <= len,
    ensures
        first_covering_spec(ms, offset) matches Some((s, e)) ==> s <= offset < e && e <= len,
    decreases ms.len(),
{
    if ms.len() > 0 {
        assert forall|i: int| 0 <= i < ms.drop_first().len() implies (#[trigger] ms.drop_first()[i]).1 <= len by {
            assert(ms.drop_first()[i] == ms[i + 1]);
        }
        lemma_first_covering_holds(ms.drop_first(), offset, len);
    }
}

proof fn lemma_last_before_holds(ms: Seq<(int, int)>, limit: int, len: int)
    requires
        forall|i: int| 0 <= i < ms.len() ==> (#[trigger] ms[i]).1 <= len,
    ensures
        last_starting_before_spec(ms, limit) matches Some((s, e)) ==> s < limit && e <= len,
    decreases ms.len(),
{
    if ms.len() > 0 {
        assert forall|i: int| 0 <= i < ms.drop_last().len() implies (#[trigger] ms.drop_last()[i]).1 <= len by {
            assert(ms.drop_last()[i] == ms[i]);
        }
        lemma_last_before_holds(ms.drop_last(), limit, len);
    }
}

/// A range within a text of `len` characters that holds `pos`.
pub open spec fn covers(r: Option<(int, int)>, pos: int, len: int) -> bool {
    r matches Some((s, e)) ==> 0 <= s <= pos < e <= len
}

/// A range within a text of `len` characters that starts after `pos`.
pub open spec fn starts_after(r: Option<(int, int)>, pos: int, len: int) -> bool {
    r matches Some((s, e)) ==> pos < s <= e <= len
}

/// A range within a text of `len` characters that starts before `pos`.
pub open spec fn starts_before(r: Option<(int, int)>, pos: int, len: int) -> bool {
    r matches Some((s, e)) ==> 0 <= s < pos && e <= len
}

impl TextObjectMatcher for RegexMatcher {
    open spec fn at_result(&self, text: Seq<char>, pos: int, mode: SelectionMode, r: Option<(int, int)>) -> bool {
        r == regex_at(self.source(), text, pos) && covers(r, pos, text.len() as int)
    }

    open spec fn next_result(&self, text: Seq<char>, pos: int, mode: SelectionMode, r: Option<(int, int)>) -> bool {
        r == regex_next(self.source(), text, pos) && starts_after(r, pos, text.len() as int)
    }

    open spec fn prev_result(&self, text: Seq<char>, pos: int, mode: SelectionMode, r: Option<(int, int)>) -> bool {
        r == regex_prev(self.source(), text, pos) && starts_before(r, pos, text.len() as int)
    }

    fn find_at<S: TextSource>(&self, buffer: &S, pos: usize, mode: SelectionMode) -> (r: Option<Range<usize>>) {
        let ghost t = buffer.source_text();
        if pos > buffer.len_chars() {
            return None;
        }
        proof {
            lemma_line_of_in_range(t, pos as int);
            lemma_line_of_bounds(t, pos as int);
        }
        let line_idx = buffer.char_to_line(pos);
        let line_start_pos = buffer.line_to_char(line_idx);
        let line_end_pos = if line_idx < buffer.len_lines() - 1 {
            buffer.line_to_char(line_idx + 1)
        } else {
            buffer.len_chars()
        };
        let line = buffer.slice_to_string(line_start_pos, line_end_pos);
        let offset = pos - line_start_pos;
        match self.find_in_text(line.as_str(), offset) {
            Some((s, e)) => Some(line_start_pos + s..line_start_pos + e),
            None => None,
        }
    }

    fn find_next<S: TextSource>(&self, buffer: &S, pos: usize, mode: SelectionMode) -> (r: Option<Range<usize>>) {
        let ghost t = buffer.source_text();
        let len = buffer.len_chars();
        if pos > len {
            return None;
        }
        let re = match &self.pattern {
            Some(re) => re,
            None => return None,
        };
        let ghost p = regex_source(*re);
        proof {
            lemma_line_of_in_range(t, pos as int);
            lemma_line_of_bounds(t, pos as int);
        }
        let lines = buffer.len_lines();
        let start_line = buffer.char_to_line(pos);
        let mut line_idx = start_line;
        while line_idx < lines
            invariant
                start_line <= line_idx <= lines,
                lines == line_count(t),
                len == t.len(),
                pos <= len,
                t == buffer.source_text(),
                start_line == line_of(t, pos as int),
                line_start(t, start_line as nat) <= pos,
                self.source() == Some(p),
                p == regex_source(*re),
                regex_next_from(p, t, pos as int, line_idx as nat) == regex_next_from(p, t, pos as int, start_line as nat),
            decreases lines - line_idx,
        {
            let line_start_pos = buffer.line_to_char(line_idx);
            let line_end_pos = if line_idx < lines - 1 {
                buffer.line_to_char(line_idx + 1)
            } else {
                len
            };
            proof {
                lemma_line_start_monotonic(t, line_idx as nat, line_idx as nat + 1);
                lemma_line_start_bounds(t, line_idx as nat + 1);
                if line_idx > start_line {
                    lemma_later_line_after(t, pos as int, line_idx as nat);
                }
            }
            let line = buffer.slice_to_string(line_start_pos, line_end_pos);
            let ghost lt = line@;
            assert(lt == line_text(t, line_idx as nat));
            let line_len = line_end_pos - line_start_pos;
            let (search_from, searchable) = if line_idx == start_line {
                let rel = pos - line_start_pos;
                if rel < line_len {
                    (rel + 1, true)
                } else {
                    (0, false)
                }
            } else {
                (0, true)
            };
            if searchable {
                let byte_from = str_char_to_byte(line.as_str(), search_from);
                match byte_match_at(re, line.as_str(), byte_from) {
                    Some((bs, be)) => {
                        let s = str_byte_to_char(line.as_str(), bs);
                        let e = str_byte_to_char(line.as_str(), be);
                        proof {
                            lemma_char_index_unique(lt, s as int, bs as int);
                            lemma_char_index_unique(lt, e as int, be as int);
                            if s < search_from {
                                lemma_utf8_len_increasing(lt, s as int, search_from as int);
                            }
                            if e < s {
                                lemma_utf8_len_increasing(lt, e as int, s as int);
                            }
                            assert(next_in_line(p, t, pos as int, line_idx as nat) == Some(((line_start_pos + s) as int, (line_start_pos + e) as int)));
                        }
                        return Some(line_start_pos + s..line_start_pos + e);
                    },
                    None => {
                        assert(next_in_line(p, t, pos as int, line_idx as nat) is None);
                    },
                }
            } else {
                assert(next_in_line(p, t, pos as int, line_idx as nat) is None);
            }
            line_idx = line_idx + 1;
        }
        None
    }

    fn find_prev<S: TextSource>(&self, buffer: &S, pos: usize, mode: SelectionMode) -> (r: Option<Range<usize>>) {
        let ghost t = buffer.source_text();
        let len = buffer.len_chars();
        if pos > len {
            return None;
        }
        let re = match &self.pattern {
            Some(re) => re,
            None => return None,
        };
        let ghost p = regex_source(*re);
        proof {
            lemma_line_of_in_range(t, pos as int);
        }
        let lines = buffer.len_lines();
        let start_line = buffer.char_to_line(pos);
        let mut k = start_line + 1;
        while k > 0
            invariant
                k <= start_line + 1,
                start_line < lines,
                start_line == line_of(t, pos as int),
                lines == line_count(t),
                len == t.len(),
                pos <= len,
                t == buffer.source_text(),
                self.source() == Some(p),
                p == regex_source(*re),
                regex_prev_from(p, t, pos as int, k - 1) == regex_prev_from(p, t, pos as int, start_line as int),
            decreases k,
        {
            let line_idx = k - 1;
            let line_start_pos = buffer.line_to_char(line_idx);
            let line_end_pos = if line_idx < lines - 1 {
                buffer.line_to_char(line_idx + 1)
            } else {
                len
            };
            proof {
                lemma_line_start_monotonic(t, line_idx as nat, line_idx as nat + 1);
                lemma_line_start_bounds(t, line_idx as nat + 1);
            }
            let line = buffer.slice_to_string(line_start_pos, line_end_pos);
            let ghost lt = line@;
            assert(lt == line_text(t, line_idx as nat));
            let bytes = byte_matches(re, line.as_str());
            let chars = to_char_ranges(line.as_str(), &bytes);
            if pos >= line_start_pos {
                let limit = pos - line_start_pos;
                match last_starting_before(chars.as_slice(), limit) {
                    Some((s, e)) => {
                        proof {
                            lemma_last_before_holds(pairs_view(chars@), limit as int, lt.len() as int);
                            assert(prev_in_line(p, t, pos as int, line_idx as nat) == Some(((line_start_pos + s) as int, (line_start_pos + e) as int)));
                        }
                        return Some(line_start_pos + s..line_start_pos + e);
                    },
                    None => {
                        assert(prev_in_line(p, t, pos as int, line_idx as nat) is None);
                    },
                }
            } else {
                assert(prev_in_line(p, t, pos as int, line_idx as nat) is None);
            }
            k = k - 1;
        }
        None
    }
}

} // verus!
