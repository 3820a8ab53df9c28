//! The line model: lines are separated by `'\n'`, and a trailing newline
//! starts one more, empty, line.

use vstd::prelude::*;

verus! {

/// Number of newline characters in `s`.
pub open spec fn count_newlines(s: Seq<char>) -> nat
    decreases s.len(),
{
    if s.len() == 0 {
        0
    } else {
        (if s[0] == '\n' {
            1nat
        } else {
            0nat
        }) + count_newlines(s.drop_first())
    }
}

/// Number of lines of `s`.
pub open spec fn line_count(s: Seq<char>) -> nat {
    count_newlines(s) + 1
}

/// Character index at which line `k` of `s` starts; `s.len()` for any `k`
/// past the last line.
pub open spec fn line_start(s: Seq<char>, k: nat) -> int
    decreases s.len(),
{
    if k == 0 {
        0
    } else if s.len() == 0 {
        0
    } else if s[0] == '\n' {
        1 + line_start(s.drop_first(), (k - 1) as nat)
    } else {
        1 + line_start(s.drop_first(), k)
    }
}

/// Line on which character `pos` of `s` stands.
pub open spec fn line_of(s: Seq<char>, pos: int) -> nat {
    count_newlines(s.take(pos))
}

/// End of line `k` of `s`, excluding nothing: the start of the next line,
/// or the end of the text for the last line.
pub open spec fn line_end(s: Seq<char>, k: nat) -> int {
    if k + 1 < line_count(s) {
        line_start(s, k + 1)
    } else {
        s.len() as int
    }
}

pub proof fn lemma_line_start_bounds(s: Seq<char>, k: nat)
    ensures
        0 <= line_start(s, k) <= s.len(),
        k == 0 ==> line_start(s, k) == 0,
    decreases s.len(),
{
    if k != 0 && s.len() != 0 {
        if s[0] == '\n' {
            lemma_line_start_bounds(s.drop_first(), (k - 1) as nat);
        } else {
            lemma_line_start_bounds(s.drop_first(), k);
        }
    }
}

pub proof fn lemma_line_start_monotonic(s: Seq<char>, j: nat, k: nat)
    requires
        j <= k,
    ensures
        line_start(s, j) <= line_start(s, k),
    decreases s.len(),
{
    if j == 0 {
        lemma_line_start_bounds(s, k);
    } else if s.len() != 0 {
        if s[0] == '\n' {
            lemma_line_start_monotonic(s.drop_first(), (j - 1) as nat, (k - 1) as nat);
        } else {
            lemma_line_start_monotonic(s.drop_first(), j, k);
        }
    }
}

proof fn lemma_line_start_positive(t: Seq<char>, k: nat)
    requires
        k > 0,
        t.len() > 0,
    ensures
        line_start(t, k) >= 1,
{
    if t[0] == '\n' {
        lemma_line_start_bounds(t.drop_first(), (k - 1) as nat);
    } else {
        lemma_line_start_bounds(t.drop_first(), k);
    }
}

/// Newlines in a prefix are at most those in the whole text.
pub proof fn lemma_count_newlines_prefix(s: Seq<char>, p: int)
    requires
        0 <= p <= s.len(),
    ensures
        count_newlines(s.take(p)) <= count_newlines(s),
    decreases s.len(),
{
    if p > 0 {
        assert(s.take(p).drop_first() =~= s.drop_first().take(p - 1));
        lemma_count_newlines_prefix(s.drop_first(), p - 1);
    }
}

/// A position stands on an existing line.
pub proof fn lemma_line_of_in_range(t: Seq<char>, pos: int)
    requires
        0 <= pos <= t.len(),
    ensures
        line_of(t, pos) < line_count(t),
{
    lemma_count_newlines_prefix(t, pos);
}

/// A position lies between the start of its line and the start of the next.
pub proof fn lemma_line_of_bounds(t: Seq<char>, pos: int)
    requires
        0 <= pos <= t.len(),
    ensures
        line_start(t, line_of(t, pos)) <= pos,
        line_of(t, pos) + 1 < line_count(t) ==> pos < line_start(t, line_of(t, pos) + 1),
        pos <= line_end(t, line_of(t, pos)),
    decreases t.len(),
{
    let k = line_of(t, pos);
    if t.len() == 0 {
        assert(t.take(pos) =~= t);
    } else if pos == 0 {
        assert(t.take(0) =~= Seq::<char>::empty());
        lemma_line_start_positive(t, 1);
    } else {
        let r = t.drop_first();
        assert(t.take(pos).drop_first() =~= r.take(pos - 1));
        lemma_line_of_bounds(r, pos - 1);
        assert(line_count(t) == line_count(r) + if t[0] == '\n' { 1nat } else { 0nat });
        if t[0] != '\n' && k == 0 {
            lemma_line_start_bounds(r, 1);
        }
    }
}

/// Lines after the line of `pos` start after `pos`.
pub proof fn lemma_later_line_after(t: Seq<char>, pos: int, k: nat)
    requires
        0 <= pos <= t.len(),
        line_of(t, pos) < k < line_count(t),
    ensures
        pos < line_start(t, k),
{
    lemma_line_of_bounds(t, pos);
    lemma_line_start_monotonic(t, line_of(t, pos) + 1, k);
}

} // verus!
