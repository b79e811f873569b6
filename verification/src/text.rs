//! Verified text utilities: substring search, trimming, line splitting and
//! the header reflow used by the changelog parser.

use vstd::prelude::*;
use vstd::string::*;
use crate::fit::item_views;

verus! {

/// Whether the pattern occurs at exactly position `i`.
pub open spec fn match_at(s: Seq<char>, p: Seq<char>, i: int) -> bool {
    0 <= i && i + p.len() <= s.len() && s.subrange(i, i + p.len()) == p
}

/// The first position at or after `i` where the pattern occurs.
pub open spec fn find_from(s: Seq<char>, p: Seq<char>, i: int) -> Option<int>
    decreases s.len() - i + 1,
{
    if i < 0 || i + p.len() > s.len() {
        None
    } else if match_at(s, p, i) {
        Some(i)
    } else {
        find_from(s, p, i + 1)
    }
}

/// What a `find_from` answer means: the position found is the first match at
/// or after `i`, and `None` means there is none.
pub proof fn lemma_find_from_props(s: Seq<char>, p: Seq<char>, i: int)
    requires
        0 <= i,
    ensures
        match find_from(s, p, i) {
            Some(j) => i <= j && match_at(s, p, j) && forall|k: int|
                i <= k < j ==> !match_at(s, p, k),
            None => forall|k: int| i <= k ==> !match_at(s, p, k),
        },
    decreases s.len() - i + 1,
{
    if i < 0 || i + p.len() > s.len() {
    } else if match_at(s, p, i) {
    } else {
        lemma_find_from_props(s, p, i + 1);
    }
}

/// The first position at or after `i` holding the character.
pub open spec fn find_ch(s: Seq<char>, c: char, i: int) -> Option<int>
    decreases s.len() - i + 1,
{
    if i < 0 || i >= s.len() {
        None
    } else if s[i] == c {
        Some(i)
    } else {
        find_ch(s, c, i + 1)
    }
}

pub proof fn lemma_find_ch_props(s: Seq<char>, c: char, i: int)
    requires
        0 <= i,
    ensures
        match find_ch(s, c, i) {
            Some(j) => i <= j < s.len() && s[j] == c && forall|k: int| i <= k < j ==> s[k] != c,
            None => forall|k: int| i <= k < s.len() ==> s[k] != c,
        },
    decreases s.len() - i + 1,
{
    if i < 0 || i >= s.len() {
    } else if s[i] == c {
    } else {
        lemma_find_ch_props(s, c, i + 1);
    }
}

/// A one-character pattern finds exactly what a character search finds.
pub proof fn lemma_find_from_single(s: Seq<char>, c: char, i: int)
    ensures
        find_from(s, seq![c], i) == find_ch(s, c, i),
    decreases s.len() - i + 1,
{
    if i < 0 || i + 1 > s.len() {
    } else {
        assert(match_at(s, seq![c], i) == (s[i] == c)) by {
            if s[i] == c {
                assert(s.subrange(i, i + 1) =~= seq![c]);
            } else {
                assert(s.subrange(i, i + 1)[0] == s[i]);
            }
        }
        if s[i] != c {
            lemma_find_from_single(s, c, i + 1);
        }
    }
}

pub(crate) fn match_at_exec(s: &str, p: &str, i: usize) -> (b: bool)
    requires
        i + p@.len() <= s@.len(),
    ensures
        b == match_at(s@, p@, i as int),
{
    let n = s.unicode_len();
    let m = p.unicode_len();
    let mut j: usize = 0;
    while j < m
        invariant
            j <= m,
            n == s@.len(),
            m == p@.len(),
            i + m <= n,
            forall|k: int| 0 <= k < j ==> s@[i + k] == p@[k],
        decreases m - j,
    {
        if s.get_char(i + j) != p.get_char(j) {
            proof {
                assert(s@.subrange(i as int, i + p@.len())[j as int] == s@[i + j]);
            }
            return false;
        }
        j += 1;
    }
    proof {
        assert(s@.subrange(i as int, i + p@.len()) =~= p@);
    }
    true
}

/// Whether two texts hold the same characters.
pub(crate) fn str_eq(a: &str, b: &str) -> (r: bool)
    ensures
        r == (a@ == b@),
{
    let n = a.unicode_len();
    let m = b.unicode_len();
    if n != m {
        return false;
    }
    let r = match_at_exec(a, b, 0);
    proof {
        assert(a@.subrange(0, 0 + b@.len() as int) =~= a@);
    }
    r
}

/// Find the first occurrence of the pattern at or after `from`.
pub fn find_sub(s: &str, p: &str, from: usize) -> (r: Option<usize>)
    ensures
        match r {
            Some(j) => Some(j as int) == find_from(s@, p@, from as int),
            None => find_from(s@, p@, from as int) is None,
        },
{
    let n = s.unicode_len();
    let m = p.unicode_len();
    if from > n {
        return None;
    }
    let mut i: usize = from;
    while i <= n && n - i >= m
        invariant
            from <= i <= n,
            n == s@.len(),
            m == p@.len(),
            find_from(s@, p@, from as int) == find_from(s@, p@, i as int),
        decreases n - i,
    {
        if match_at_exec(s, p, i) {
            return Some(i);
        }
        proof {
            if m == 0 {
                assert(s@.subrange(i as int, i + p@.len()) =~= p@);
            }
        }
        i += 1;
    }
    None
}

/// The whitespace the parser trims: space, tab, carriage return, newline.
pub open spec fn is_wsp(c: char) -> bool {
    c == ' ' || c == '\t' || c == '\r' || c == '\n'
}

fn is_wsp_char(c: char) -> (b: bool)
    ensures
        b == is_wsp(c),
{
    c == ' ' || c == '\t' || c == '\r' || c == '\n'
}

pub open spec fn drop_leading(s: Seq<char>) -> Seq<char>
    decreases s.len(),
{
    if s.len() > 0 && is_wsp(s[0]) {
        drop_leading(s.drop_first())
    } else {
        s
    }
}

pub open spec fn drop_trailing(s: Seq<char>) -> Seq<char>
    decreases s.len(),
{
    if s.len() > 0 && is_wsp(s.last()) {
        drop_trailing(s.drop_last())
    } else {
        s
    }
}

/// The text without leading and trailing whitespace.
pub open spec fn spec_trim(s: Seq<char>) -> Seq<char> {
    drop_trailing(drop_leading(s))
}

proof fn lemma_drop_leading(s: Seq<char>, lo: int)
    requires
        0 <= lo <= s.len(),
        forall|k: int| 0 <= k < lo ==> is_wsp(s[k]),
        lo < s.len() ==> !is_wsp(s[lo]),
    ensures
        drop_leading(s) == s.subrange(lo, s.len() as int),
    decreases lo,
{
    if lo == 0 {
        assert(s.subrange(0, s.len() as int) =~= s);
    } else {
        lemma_drop_leading(s.drop_first(), lo - 1);
        assert(s.drop_first().subrange(lo - 1, s.drop_first().len() as int) =~= s.subrange(
            lo,
            s.len() as int,
        ));
    }
}

proof fn lemma_drop_trailing(s: Seq<char>, hi: int)
    requires
        0 <= hi <= s.len(),
        forall|k: int| hi <= k < s.len() ==> is_wsp(s[k]),
        hi > 0 ==> !is_wsp(s[hi - 1]),
    ensures
        drop_trailing(s) == s.subrange(0, hi),
    decreases s.len() - hi,
{
    if hi == s.len() {
        assert(s.subrange(0, s.len() as int) =~= s);
    } else {
        lemma_drop_trailing(s.drop_last(), hi);
        assert(s.drop_last().subrange(0, hi) =~= s.subrange(0, hi));
    }
}

/// Trim surrounding whitespace.
pub fn trim_str(s: &str) -> (r: String)
    ensures
        r@ == spec_trim(s@),
{
    let n = s.unicode_len();
    let mut lo: usize = 0;
    while lo < n && is_wsp_char(s.get_char(lo))
        invariant
            0 <= lo <= n,
            n == s@.len(),
            forall|k: int| 0 <= k < lo ==> is_wsp(s@[k]),
        decreases n - lo,
    {
        lo += 1;
    }
    let mut hi: usize = n;
    while hi > lo && is_wsp_char(s.get_char(hi - 1))
        invariant
            lo <= hi <= n,
            n == s@.len(),
            forall|k: int| hi <= k < n ==> is_wsp(s@[k]),
        decreases hi,
    {
        hi -= 1;
    }
    let r = s.substring_char(lo, hi).to_owned();
    proof {
        let t = s@.subrange(lo as int, n as int);
        lemma_drop_leading(s@, lo as int);
        lemma_drop_trailing(t, hi - lo);
        assert(t.subrange(0, hi - lo) =~= s@.subrange(lo as int, hi as int));
    }
    r
}

/// What remains of a line before its terminator: a trailing carriage return
/// belongs to the terminator.
pub open spec fn strip_cr(seg: Seq<char>) -> Seq<char> {
    if seg.len() > 0 && seg.last() == '\r' {
        seg.drop_last()
    } else {
        seg
    }
}

/// The lines of the text from position `pos` on: split at `\n`, a `\r`
/// before the `\n` dropped, and no empty line after a final terminator.
pub open spec fn lines_from(s: Seq<char>, pos: int) -> Seq<Seq<char>>
    decreases s.len() - pos,
        via lines_from_decreases
{
    if pos < 0 || pos >= s.len() {
        Seq::empty()
    } else {
        match find_ch(s, '\n', pos) {
            None => seq![s.subrange(pos, s.len() as int)],
            Some(j) => seq![strip_cr(s.subrange(pos, j))] + lines_from(s, j + 1),
        }
    }
}

#[via_fn]
proof fn lines_from_decreases(s: Seq<char>, pos: int) {
    if 0 <= pos < s.len() {
        lemma_find_ch_props(s, '\n', pos);
    }
}

/// The lines of the whole text.
pub open spec fn spec_lines(s: Seq<char>) -> Seq<Seq<char>> {
    lines_from(s, 0)
}

/// Split the text into its lines.
pub fn split_lines(s: &str) -> (r: Vec<String>)
    ensures
        item_views(r) == spec_lines(s@),
{
    let n = s.unicode_len();
    let mut r: Vec<String> = Vec::new();
    let mut pos: usize = 0;
    proof {
        reveal_strlit("\n");
    }
    while pos < n
        invariant
            0 <= pos <= n,
            n == s@.len(),
            "\n"@ == seq!['\n'],
            spec_lines(s@) == item_views(r) + lines_from(s@, pos as int),
        decreases n - pos,
    {
        proof {
            lemma_find_from_single(s@, '\n', pos as int);
            lemma_find_ch_props(s@, '\n', pos as int);
        }
        let ghost r0 = r;
        match find_sub(s, "\n", pos) {
            None => {
                let line = s.substring_char(pos, n).to_owned();
                r.push(line);
                proof {
                    assert(item_views(r) =~= item_views(r0).push(s@.subrange(
                        pos as int,
                        n as int,
                    )));
                    assert(item_views(r0) + lines_from(s@, pos as int) =~= item_views(r));
                }
                pos = n;
            },
            Some(j) => {
                let end = if j > pos && s.get_char(j - 1) == '\r' {
                    j - 1
                } else {
                    j
                };
                let line = s.substring_char(pos, end).to_owned();
                r.push(line);
                proof {
                    assert(strip_cr(s@.subrange(pos as int, j as int)) =~= s@.subrange(
                        pos as int,
                        end as int,
                    ));
                    assert(item_views(r) =~= item_views(r0).push(s@.subrange(
                        pos as int,
                        end as int,
                    )));
                    assert(item_views(r0) + (seq![strip_cr(s@.subrange(pos as int, j as int))]
                        + lines_from(s@, j + 1)) =~= item_views(r) + lines_from(s@, j + 1));
                }
                pos = j + 1;
            },
        }
    }
    proof {
        assert(item_views(r) + lines_from(s@, pos as int) =~= item_views(r));
    }
    r
}

/// The length of a line break at position `i`: `\n` is one character,
/// `\r\n` is two, anything else is no break.
pub open spec fn break_len(s: Seq<char>, i: int) -> int {
    if 0 <= i < s.len() && s[i] == '\n' {
        1
    } else if 0 <= i && i + 1 < s.len() && s[i] == '\r' && s[i + 1] == '\n' {
        2
    } else {
        0
    }
}

/// The position after the run of consecutive line breaks starting at `i`.
pub open spec fn run_end(s: Seq<char>, i: int) -> int
    decreases s.len() - i,
        via run_end_decreases
{
    if break_len(s, i) == 0 {
        i
    } else {
        run_end(s, i + break_len(s, i))
    }
}

#[via_fn]
proof fn run_end_decreases(s: Seq<char>, i: int) {
}

/// How many line breaks the run starting at `i` holds.
pub open spec fn run_count(s: Seq<char>, i: int) -> int
    decreases s.len() - i,
        via run_count_decreases
{
    if break_len(s, i) == 0 {
        0
    } else {
        1 + run_count(s, i + break_len(s, i))
    }
}

#[via_fn]
proof fn run_count_decreases(s: Seq<char>, i: int) {
}

pub proof fn lemma_run_count_nonneg(s: Seq<char>, i: int)
    ensures
        run_count(s, i) >= 0,
    decreases s.len() - i,
{
    if break_len(s, i) != 0 {
        lemma_run_count_nonneg(s, i + break_len(s, i));
    }
}

pub proof fn lemma_run_end_bounds(s: Seq<char>, i: int)
    requires
        0 <= i <= s.len(),
    ensures
        i <= run_end(s, i) <= s.len(),
        break_len(s, i) != 0 ==> i < run_end(s, i),
    decreases s.len() - i,
{
    if break_len(s, i) != 0 {
        lemma_run_end_bounds(s, i + break_len(s, i));
    }
}

/// The reflowed text from position `i` on. A run of two or more line breaks
/// becomes one blank line; a single line break standing between two
/// non-whitespace characters becomes one space; any other text is kept.
pub open spec fn reflow_from(s: Seq<char>, i: int) -> Seq<char>
    decreases s.len() - i,
        via reflow_from_decreases
{
    if i < 0 || i >= s.len() {
        Seq::empty()
    } else if break_len(s, i) == 0 {
        seq![s[i]] + reflow_from(s, i + 1)
    } else {
        let e = run_end(s, i);
        if run_count(s, i) >= 2 {
            "\n\n"@ + reflow_from(s, e)
        } else if i > 0 && !is_wsp(s[i - 1]) && e < s.len() && !is_wsp(s[e]) {
            seq![' '] + reflow_from(s, e)
        } else {
            s.subrange(i, e) + reflow_from(s, e)
        }
    }
}

#[via_fn]
proof fn reflow_from_decreases(s: Seq<char>, i: int) {
    if 0 <= i < s.len() && break_len(s, i) != 0 {
        lemma_run_end_bounds(s, i);
    }
}

/// The reflowed text: soft-wrapped lines joined by spaces, runs of blank
/// lines collapsed to one.
pub open spec fn spec_reflow(s: Seq<char>) -> Seq<char> {
    reflow_from(s, 0)
}

fn break_len_exec(s: &str, i: usize, n: usize) -> (r: usize)
    requires
        n == s@.len(),
        i <= n,
    ensures
        r == break_len(s@, i as int),
{
    if i < n && s.get_char(i) == '\n' {
        1
    } else if i < n && i + 1 < n && s.get_char(i) == '\r' && s.get_char(i + 1) == '\n' {
        2
    } else {
        0
    }
}

fn run_scan(s: &str, i: usize, n: usize) -> (r: (usize, usize))
    requires
        n == s@.len(),
        i <= n,
    ensures
        r.0 == run_end(s@, i as int),
        i <= r.0 <= n,
        r.1 >= 2 <==> run_count(s@, i as int) >= 2,
    decreases n - i,
{
    let mut j: usize = i;
    let mut c: usize = 0;
    proof {
        lemma_run_count_nonneg(s@, i as int);
    }
    loop
        invariant
            i <= j <= n,
            n == s@.len(),
            run_end(s@, i as int) == run_end(s@, j as int),
            c <= 2,
            c < 2 ==> run_count(s@, i as int) == c + run_count(s@, j as int),
            c == 2 ==> run_count(s@, i as int) >= 2,
            run_count(s@, j as int) >= 0,
        decreases n - j,
    {
        let bl = break_len_exec(s, j, n);
        proof {
            lemma_run_count_nonneg(s@, j as int);
        }
        if bl == 0 {
            proof {
                lemma_run_end_bounds(s@, j as int);
            }
            return (j, c);
        }
        proof {
            lemma_run_end_bounds(s@, j as int);
            lemma_run_count_nonneg(s@, j + bl);
        }
        j += bl;
        if c < 2 {
            c += 1;
        }
    }
}

/// Reflow soft-wrapped text: collapse a single line break between two
/// non-whitespace characters into a space, and any run of two or more line
/// breaks into one blank line.
pub fn reflow(s: &str) -> (r: String)
    ensures
        r@ == spec_reflow(s@),
{
    let n = s.unicode_len();
    let mut out = String::new();
    let mut i: usize = 0;
    while i < n
        invariant
            0 <= i <= n,
            n == s@.len(),
            out@ + reflow_from(s@, i as int) == spec_reflow(s@),
        decreases n - i,
    {
        let ghost out0 = out@;
        let bl = break_len_exec(s, i, n);
        if bl == 0 {
            out.append(s.substring_char(i, i + 1));
            proof {
                assert(s@.subrange(i as int, i + 1) =~= seq![s@[i as int]]);
                assert(out0 + (seq![s@[i as int]] + reflow_from(s@, i + 1)) =~= out@
                    + reflow_from(s@, i + 1));
            }
            i += 1;
        } else {
            let (e, c) = run_scan(s, i, n);
            if c >= 2 {
                out.append("\n\n");
                proof {
                    assert(out0 + ("\n\n"@ + reflow_from(s@, e as int)) =~= out@ + reflow_from(
                        s@,
                        e as int,
                    ));
                }
            } else if i > 0 && !is_wsp_char(s.get_char(i - 1)) && e < n && !is_wsp_char(
                s.get_char(e),
            ) {
                out.append(" ");
                proof {
                    reveal_strlit(" ");
                    assert(" "@ =~= seq![' ']);
                    assert(out0 + (seq![' '] + reflow_from(s@, e as int)) =~= out@ + reflow_from(
                        s@,
                        e as int,
                    ));
                }
            } else {
                out.append(s.substring_char(i, e));
                proof {
                    assert(out0 + (s@.subrange(i as int, e as int) + reflow_from(s@, e as int))
                        =~= out@ + reflow_from(s@, e as int));
                }
            }
            proof {
                lemma_run_end_bounds(s@, i as int);
            }
            i = e;
        }
    }
    proof {
        assert(out@ + reflow_from(s@, i as int) =~= out@);
    }
    out
}

} // verus!
