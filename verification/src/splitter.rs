//! Turning raw input lines into rows of fields.
//!
//! Two strategies. Whitespace splitting cuts each line at blank-character
//! runs, independently per line. Adaptive splitting looks at the whole batch
//! first: a character column is blank when it is blank in every line (short
//! lines count as blank past their end), the separator width is the widest
//! blank-column run observed anywhere, and field boundaries are the content
//! runs between blank runs of exactly that width. Each field is then the
//! trimmed substring of its line over one boundary range.

use vstd::prelude::*;

use crate::text::{is_space, is_space_char, spec_trim, str_chars, trim_str};

verus! {

/// Whitespace splitting of one line, scanning left to right; `cur` is the
/// start of the open content run, if one is open.
pub open spec fn ws_split_acc(s: Seq<char>, i: int, cur: Option<int>) -> Seq<Seq<char>>
    decreases s.len() - i,
{
    if i < 0 || i >= s.len() {
        match cur {
            Some(st) => seq![s.subrange(st, s.len() as int)],
            None => Seq::empty(),
        }
    } else if is_space_char(s[i]) {
        match cur {
            Some(st) => seq![s.subrange(st, i)] + ws_split_acc(s, i + 1, None),
            None => ws_split_acc(s, i + 1, None),
        }
    } else {
        ws_split_acc(s, i + 1, if cur is None { Some(i) } else { cur })
    }
}

/// The maximal non-blank runs of a line, in order.
pub open spec fn spec_ws_split(s: Seq<char>) -> Seq<Seq<char>> {
    ws_split_acc(s, 0, None)
}

/// Split one line at whitespace runs.
fn ws_split(line: &str) -> (r: Vec<String>)
    ensures
        r.deep_view() == spec_ws_split(line@),
{
    let n = line.unicode_len();
    let mut fields: Vec<String> = Vec::new();
    let mut cur: Option<usize> = None;
    let mut i: usize = 0;
    proof {
        assert(fields.deep_view() + ws_split_acc(line@, 0, None) =~= spec_ws_split(line@));
    }
    while i < n
        invariant
            i <= n,
            n == line@.len(),
            match cur {
                Some(st) => st < i && forall|j: int| st <= j < i ==> !is_space_char(line@[j]),
                None => true,
            },
            fields.deep_view() + ws_split_acc(
                line@,
                i as int,
                match cur {
                    Some(st) => Some(st as int),
                    None => None,
                },
            ) =~= spec_ws_split(line@),
        decreases n - i,
    {
        let c = line.get_char(i);
        if is_space(c) {
            if let Some(st) = cur {
                let ghost prev = fields.deep_view();
                fields.push(line.substring_char(st, i).to_owned());
                proof {
                    assert(fields.deep_view() =~= prev.push(line@.subrange(st as int, i as int)));
                    assert(fields.deep_view() + ws_split_acc(line@, i as int + 1, None)
                        =~= spec_ws_split(line@));
                }
                cur = None;
            }
        } else {
            if cur.is_none() {
                cur = Some(i);
            }
        }
        i = i + 1;
    }
    if let Some(st) = cur {
        let ghost prev = fields.deep_view();
        fields.push(line.substring_char(st, n).to_owned());
        proof {
            assert(fields.deep_view() =~= prev.push(line@.subrange(st as int, n as int)));
        }
    }
    proof {
        assert(fields.deep_view() =~= spec_ws_split(line@));
    }
    fields
}

/// The length of the longest line of the batch.
pub open spec fn spec_max_len(lines: Seq<Seq<char>>) -> int
    decreases lines.len(),
{
    if lines.len() == 0 {
        0
    } else {
        let rest = spec_max_len(lines.drop_last());
        if lines.last().len() > rest {
            lines.last().len() as int
        } else {
            rest
        }
    }
}

/// Character column `c` is blank: every line is either too short to reach it
/// or holds a blank character there.
pub open spec fn col_is_blank(lines: Seq<Seq<char>>, c: int) -> bool {
    forall|k: int|
        0 <= k < lines.len() ==> (c >= lines[k].len() || is_space_char(lines[k][c]))
}

/// Column `c` is blank in every line before line `k` of the batch.
pub open spec fn col_is_blank_upto(lines: Seq<Seq<char>>, c: int, k: int) -> bool {
    forall|t: int| 0 <= t < k ==> (c >= lines[t].len() || is_space_char(lines[t][c]))
}

/// The length of the run of consecutive blank columns ending at `c`,
/// inclusive; zero when `c` itself is not blank.
pub open spec fn spec_run_len(icw: Seq<bool>, c: int) -> int
    decreases c,
{
    if c < 0 || c >= icw.len() {
        0
    } else if !icw[c] {
        0
    } else if c == 0 {
        1
    } else {
        spec_run_len(icw, c - 1) + 1
    }
}

/// The largest blank run ending below column `c`.
pub open spec fn spec_max_run_upto(icw: Seq<bool>, c: int) -> int
    decreases c,
{
    if c <= 0 {
        0
    } else {
        let rest = spec_max_run_upto(icw, c - 1);
        if spec_run_len(icw, c - 1) > rest {
            spec_run_len(icw, c - 1)
        } else {
            rest
        }
    }
}

/// The separator width: the widest blank-column run observed anywhere in the
/// batch, but never less than one.
pub open spec fn spec_sep_width(icw: Seq<bool>) -> int {
    let m = spec_max_run_upto(icw, icw.len() as int);
    if m > 1 {
        m
    } else {
        1
    }
}

/// The boundary scan, from column `c` with `start` the opening column of the
/// content run at hand: a blank run reaching width `w` closes the open run at
/// the run's first column; a non-blank column opens a run; an open run still
/// live at the end closes at the batch width.
pub open spec fn spec_scan(icw: Seq<bool>, w: int, c: int, start: Option<int>) -> Seq<(int, int)>
    decreases icw.len() - c,
{
    if c < 0 || c >= icw.len() {
        match start {
            Some(st) => seq![(st, icw.len() as int)],
            None => Seq::empty(),
        }
    } else if spec_run_len(icw, c) == w {
        match start {
            Some(st) => seq![(st, c - w + 1)] + spec_scan(icw, w, c + 1, None),
            None => spec_scan(icw, w, c + 1, None),
        }
    } else if !icw[c] && start is None {
        spec_scan(icw, w, c + 1, Some(c))
    } else {
        spec_scan(icw, w, c + 1, start)
    }
}

/// The blank-column vector of a batch.
pub open spec fn spec_blank_cols(lines: Seq<Seq<char>>) -> Seq<bool> {
    Seq::new(spec_max_len(lines) as nat, |c: int| col_is_blank(lines, c))
}

/// The inferred column boundaries of a batch.
pub open spec fn spec_column_ranges(lines: Seq<Seq<char>>) -> Seq<(int, int)> {
    let icw = spec_blank_cols(lines);
    spec_scan(icw, spec_sep_width(icw), 0, None)
}

/// Boundary ranges as mathematical pairs.
pub open spec fn ranges_view(rs: Seq<(usize, usize)>) -> Seq<(int, int)> {
    rs.map_values(|p: (usize, usize)| (p.0 as int, p.1 as int))
}

/// The fields one boundary list cuts out of one line: each range's substring,
/// clipped to the line's own length, trimmed.
pub open spec fn spec_smart_fields(line: Seq<char>, rs: Seq<(int, int)>) -> Seq<Seq<char>> {
    rs.map_values(
        |p: (int, int)|
            {
                let len = line.len() as int;
                let e = if p.1 < len {
                    p.1
                } else {
                    len
                };
                let b = if p.0 < e {
                    p.0
                } else {
                    e
                };
                spec_trim(line.subrange(b, e))
            },
    )
}

/// A blank run lies within the columns, covers exactly the blank columns
/// counted, and is preceded by a non-blank column or the left edge.
pub proof fn lemma_run_len(icw: Seq<bool>, c: int)
    requires
        0 <= c < icw.len(),
    ensures
        0 <= spec_run_len(icw, c) <= c + 1,
        forall|j: int| c - spec_run_len(icw, c) < j <= c ==> icw[j],
        spec_run_len(icw, c) <= c ==> !icw[c - spec_run_len(icw, c)],
    decreases c,
{
    if c > 0 && icw[c] {
        lemma_run_len(icw, c - 1);
    }
}

/// Every run is bounded by the maximum, and the maximum is no wider than the
/// column count.
pub proof fn lemma_max_run_upto(icw: Seq<bool>, c: int)
    requires
        0 <= c <= icw.len(),
    ensures
        0 <= spec_max_run_upto(icw, c) <= icw.len(),
        forall|j: int| 0 <= j < c ==> spec_run_len(icw, j) <= spec_max_run_upto(icw, c),
    decreases c,
{
    if c > 0 {
        lemma_max_run_upto(icw, c - 1);
        lemma_run_len(icw, c - 1);
    }
}

/// A batch whose lines are laid out over the cell ranges `rs`, separated by
/// blank-column runs of exactly width `w` — the widest blank run the batch
/// shows anywhere: cells are ordered and nonempty, consecutive cells are `w`
/// columns apart, the last cell reaches the longest line, every column before
/// the first cell and between cells is blank in every line, every cell begins
/// and ends with a column some line marks non-blank, and no blank run inside
/// a cell reaches the separator width.
pub open spec fn ranges_aligned(lines: Seq<Seq<char>>, rs: Seq<(int, int)>, w: int) -> bool {
    let len = spec_max_len(lines);
    let icw = spec_blank_cols(lines);
    &&& w >= 1
    &&& rs.len() >= 2
    &&& (forall|t: int| 0 <= t < rs.len() ==> 0 <= (#[trigger] rs[t]).0 < rs[t].1 <= len)
    &&& (forall|t: int| 0 <= t < rs.len() - 1 ==> (#[trigger] rs[t]).1 + w == rs[t + 1].0)
    &&& rs[0].0 <= w
    &&& rs[rs.len() - 1].1 == len
    &&& (forall|c: int| 0 <= c < rs[0].0 ==> (#[trigger] icw[c]))
    &&& (forall|t: int, c: int|
        0 <= t < rs.len() - 1 && (#[trigger] rs[t]).1 <= c < rs[t + 1].0 ==> (#[trigger] icw[c]))
    &&& (forall|t: int|
        0 <= t < rs.len() ==> !icw[(#[trigger] rs[t]).0] && !icw[rs[t].1 - 1])
    &&& (forall|t: int, c: int|
        0 <= t < rs.len() && (#[trigger] rs[t]).0 <= c < rs[t].1 ==> #[trigger] spec_run_len(
            icw,
            c,
        ) < w)
}

/// A blank run that starts right after a non-blank column (or at the left
/// edge) has exactly the width scanned so far.
proof fn lemma_gap_run(icw: Seq<bool>, e: int, c: int)
    requires
        0 <= e <= c < icw.len(),
        e == 0 || !icw[e - 1],
        forall|j: int| e <= j <= c ==> (#[trigger] icw[j]),
    ensures
        spec_run_len(icw, c) == c - e + 1,
    decreases c - e,
{
    assert(icw[c]);
    if c > e {
        lemma_gap_run(icw, e, c - 1);
    } else {
        if e > 0 {
            assert(spec_run_len(icw, e - 1) == 0);
        }
    }
}

/// Under an aligned layout no blank run anywhere exceeds the separator width.
proof fn lemma_aligned_run_le_rec(lines: Seq<Seq<char>>, rs: Seq<(int, int)>, w: int, c: int, t: int)
    requires
        ranges_aligned(lines, rs, w),
        0 <= t < rs.len(),
        rs[t].0 <= c < spec_max_len(lines),
    ensures
        spec_run_len(spec_blank_cols(lines), c) <= w,
    decreases rs.len() - t,
{
    let icw = spec_blank_cols(lines);
    if c < rs[t].1 {
    } else if t + 1 < rs.len() {
        if c < rs[t + 1].0 {
            lemma_gap_run(icw, rs[t].1, c);
        } else {
            lemma_aligned_run_le_rec(lines, rs, w, c, t + 1);
        }
    } else {
        assert(c < rs[t].1);
    }
}

proof fn lemma_aligned_run_le(lines: Seq<Seq<char>>, rs: Seq<(int, int)>, w: int, c: int)
    requires
        ranges_aligned(lines, rs, w),
        0 <= c < spec_max_len(lines),
    ensures
        spec_run_len(spec_blank_cols(lines), c) <= w,
{
    let icw = spec_blank_cols(lines);
    if c < rs[0].0 {
        lemma_gap_run(icw, 0, c);
    } else {
        lemma_aligned_run_le_rec(lines, rs, w, c, 0);
    }
}

proof fn lemma_max_upto_le(icw: Seq<bool>, c: int, w: int)
    requires
        0 <= w,
        forall|j: int| 0 <= j < c ==> spec_run_len(icw, j) <= w,
    ensures
        spec_max_run_upto(icw, c) <= w,
    decreases c,
{
    if c > 0 {
        lemma_max_upto_le(icw, c - 1, w);
    }
}

/// Under an aligned layout the inferred separator width is exactly `w`: the
/// gaps realize it and nothing exceeds it.
proof fn lemma_aligned_sep_width(lines: Seq<Seq<char>>, rs: Seq<(int, int)>, w: int)
    requires
        ranges_aligned(lines, rs, w),
    ensures
        spec_sep_width(spec_blank_cols(lines)) == w,
{
    let icw = spec_blank_cols(lines);
    let len = spec_max_len(lines);
    lemma_spec_max_len(lines);
    assert(icw.len() == len);
    assert forall|j: int| 0 <= j < icw.len() implies spec_run_len(icw, j) <= w by {
        lemma_aligned_run_le(lines, rs, w, j);
    }
    lemma_max_upto_le(icw, icw.len() as int, w);
    let cstar = rs[1].0 - 1;
    assert(rs[0].1 + w == rs[1].0);
    lemma_gap_run(icw, rs[0].1, cstar);
    assert(spec_run_len(icw, cstar) == w);
    lemma_max_run_upto(icw, icw.len() as int);
    assert(spec_max_run_upto(icw, icw.len() as int) >= w);
}

/// The scan position one past which cell `t` closes: the last column of the
/// gap after it, or the batch width for the last cell.
pub open spec fn cell_close(lines: Seq<Seq<char>>, rs: Seq<(int, int)>, t: int) -> int {
    if t + 1 < rs.len() {
        rs[t + 1].0 - 1
    } else {
        spec_max_len(lines)
    }
}

/// Scanning inside cell `t` (or its trailing gap) with the cell open emits
/// the cell itself and then whatever the next cell region yields.
proof fn lemma_scan_cell(lines: Seq<Seq<char>>, rs: Seq<(int, int)>, w: int, t: int, c: int)
    requires
        ranges_aligned(lines, rs, w),
        0 <= t < rs.len(),
        rs[t].0 < c <= cell_close(lines, rs, t),
    ensures
        spec_scan(spec_blank_cols(lines), w, c, Some(rs[t].0)) == seq![rs[t]] + (if t + 1
            < rs.len() {
            spec_scan(spec_blank_cols(lines), w, rs[t + 1].0, None)
        } else {
            Seq::<(int, int)>::empty()
        }),
    decreases cell_close(lines, rs, t) + 1 - c,
{
    let icw = spec_blank_cols(lines);
    let len = spec_max_len(lines);
    lemma_spec_max_len(lines);
    assert(icw.len() == len);
    if c == cell_close(lines, rs, t) {
        if t + 1 < rs.len() {
            assert(rs[t].1 + w == rs[t + 1].0);
            lemma_gap_run(icw, rs[t].1, c);
            assert(spec_run_len(icw, c) == w);
            assert(spec_scan(icw, w, c, Some(rs[t].0)) == seq![(rs[t].0, c - w + 1)] + spec_scan(
                icw,
                w,
                c + 1,
                None,
            ));
            assert((rs[t].0, c - w + 1) == rs[t]);
            assert(seq![(rs[t].0, c - w + 1)] =~= seq![rs[t]]);
        } else {
            assert(c == len && rs[t].1 == len);
            assert(spec_scan(icw, w, c, Some(rs[t].0)) == seq![(rs[t].0, len)]);
            assert((rs[t].0, len) == rs[t]);
            assert(seq![(rs[t].0, len)] + Seq::<(int, int)>::empty() =~= seq![rs[t]]);
        }
    } else {
        if c < rs[t].1 {
            assert(spec_run_len(icw, c) < w);
        } else {
            assert(t + 1 < rs.len() || c < rs[t].1);
            if t + 1 < rs.len() {
                lemma_gap_run(icw, rs[t].1, c);
                assert(spec_run_len(icw, c) == c - rs[t].1 + 1 < w);
            }
        }
        assert(spec_scan(icw, w, c, Some(rs[t].0)) == spec_scan(icw, w, c + 1, Some(rs[t].0)));
        lemma_scan_cell(lines, rs, w, t, c + 1);
    }
}

/// Scanning from the opening column of cell `t` emits that cell and every
/// later one.
proof fn lemma_scan_cells(lines: Seq<Seq<char>>, rs: Seq<(int, int)>, w: int, t: int)
    requires
        ranges_aligned(lines, rs, w),
        0 <= t < rs.len(),
    ensures
        spec_scan(spec_blank_cols(lines), w, rs[t].0, None) == rs.skip(t),
    decreases rs.len() - t,
{
    let icw = spec_blank_cols(lines);
    let len = spec_max_len(lines);
    lemma_spec_max_len(lines);
    assert(icw.len() == len);
    assert(!icw[rs[t].0]);
    assert(spec_run_len(icw, rs[t].0) == 0);
    assert(spec_scan(icw, w, rs[t].0, None) == spec_scan(icw, w, rs[t].0 + 1, Some(rs[t].0)));
    lemma_scan_cell(lines, rs, w, t, rs[t].0 + 1);
    if t + 1 < rs.len() {
        lemma_scan_cells(lines, rs, w, t + 1);
        assert(seq![rs[t]] + rs.skip(t + 1) =~= rs.skip(t));
    } else {
        assert(seq![rs[t]] + Seq::<(int, int)>::empty() =~= rs.skip(t));
    }
}

/// Scanning the blank columns before the first cell emits nothing and opens
/// nothing.
proof fn lemma_scan_leading(lines: Seq<Seq<char>>, rs: Seq<(int, int)>, w: int, c: int)
    requires
        ranges_aligned(lines, rs, w),
        0 <= c <= rs[0].0,
    ensures
        spec_scan(spec_blank_cols(lines), w, c, None) == spec_scan(
            spec_blank_cols(lines),
            w,
            rs[0].0,
            None,
        ),
    decreases rs[0].0 - c,
{
    let icw = spec_blank_cols(lines);
    lemma_spec_max_len(lines);
    if c < rs[0].0 {
        lemma_gap_run(icw, 0, c);
        lemma_scan_leading(lines, rs, w, c + 1);
    }
}

/// Law: the adaptive splitter reconstructs an aligned layout exactly. When a
/// batch is laid out over cell ranges separated by blank runs as wide as the
/// widest run the batch shows, boundary inference returns those very ranges —
/// so each line splits back into its own cells' trimmed substrings, whatever
/// blanks a cell carries inside, at its edges, or before the first cell.
pub proof fn lemma_adaptive_splitter_reconstructs(
    lines: Seq<Seq<char>>,
    rs: Seq<(int, int)>,
    w: int,
)
    requires
        ranges_aligned(lines, rs, w),
    ensures
        spec_column_ranges(lines) == rs,
        forall|k: int|
            0 <= k < lines.len() ==> #[trigger] spec_smart_fields(
                lines[k],
                spec_column_ranges(lines),
            ) == spec_smart_fields(lines[k], rs),
{
    lemma_aligned_sep_width(lines, rs, w);
    lemma_scan_leading(lines, rs, w, 0);
    lemma_scan_cells(lines, rs, w, 0);
    assert(rs.skip(0) =~= rs);
}

/// No line is longer than the batch maximum.
pub proof fn lemma_spec_max_len(lines: Seq<Seq<char>>)
    ensures
        spec_max_len(lines) >= 0,
        forall|k: int| 0 <= k < lines.len() ==> lines[k].len() <= spec_max_len(lines),
    decreases lines.len(),
{
    if lines.len() > 0 {
        lemma_spec_max_len(lines.drop_last());
        assert(forall|k: int|
            0 <= k < lines.len() - 1 ==> lines[k] == lines.drop_last()[k]);
    }
}

/// A row of fields split out of one input line.
#[derive(Debug)]
pub enum Splitter {
    /// Split every line at its own whitespace runs; no shared schema.
    Whitespace { lines: Vec<String>, cur: usize },
    /// Split every line at the boundaries inferred from the whole batch.
    Smart { lines: Vec<String>, cur: usize, column_ranges: Vec<(usize, usize)> },
}

impl Splitter {
    /// The longest line of the batch, in characters.
    fn max_line_len(lines: &Vec<String>) -> (r: usize)
        ensures
            r as int == spec_max_len(lines.deep_view()),
    {
        let ghost ld = lines.deep_view();
        let mut r: usize = 0;
        let mut k: usize = 0;
        proof {
            assert(ld.take(0) =~= Seq::<Seq<char>>::empty());
        }
        while k < lines.len()
            invariant
                k <= lines@.len(),
                ld == lines.deep_view(),
                ld.len() == lines@.len(),
                r as int == spec_max_len(ld.take(k as int)),
            decreases lines@.len() - k,
        {
            let l = lines[k].as_str().unicode_len();
            if l > r {
                r = l;
            }
            proof {
                assert(ld.take(k as int + 1).drop_last() =~= ld.take(k as int));
                assert(ld.take(k as int + 1).last() == ld[k as int]);
            }
            k = k + 1;
        }
        proof {
            assert(ld.take(ld.len() as int) =~= ld);
        }
        r
    }

    /// For every character column of the batch, whether it is blank in every
    /// line.
    pub fn get_is_column_whitespace_vec(lines: &Vec<String>) -> (r: Vec<bool>)
        ensures
            r@.len() == spec_max_len(lines.deep_view()),
            forall|c: int| 0 <= c < r@.len() ==> r@[c] == col_is_blank(lines.deep_view(), c),
    {
        let ghost ld = lines.deep_view();
        let max_len = Self::max_line_len(lines);
        let mut r: Vec<bool> = Vec::new();
        while r.len() < max_len
            invariant
                r@.len() <= max_len,
                forall|c: int| 0 <= c < r@.len() ==> r@[c],
            decreases max_len - r@.len(),
        {
            r.push(true);
        }
        let mut k: usize = 0;
        while k < lines.len()
            invariant
                k <= lines@.len(),
                ld == lines.deep_view(),
                ld.len() == lines@.len(),
                max_len as int == spec_max_len(ld),
                r@.len() == max_len,
                forall|c: int| 0 <= c < r@.len() ==> r@[c] == col_is_blank_upto(ld, c, k as int),
            decreases lines@.len() - k,
        {
            let cv = str_chars(lines[k].as_str());
            proof {
                lemma_spec_max_len(ld);
                assert(cv@ == ld[k as int]);
            }
            let mut j: usize = 0;
            while j < cv.len()
                invariant
                    j <= cv@.len(),
                    k < lines@.len(),
                    ld == lines.deep_view(),
                    ld.len() == lines@.len(),
                    cv@ == ld[k as int],
                    cv@.len() <= max_len,
                    r@.len() == max_len,
                    forall|c: int|
                        0 <= c < r@.len() ==> r@[c] == (col_is_blank_upto(ld, c, k as int) && (c
                            >= j || c >= ld[k as int].len() || is_space_char(ld[k as int][c]))),
                decreases cv@.len() - j,
            {
                if !is_space(cv[j]) {
                    r.set(j, false);
                }
                j = j + 1;
            }
            proof {
                assert forall|c: int| 0 <= c < r@.len() implies r@[c] == col_is_blank_upto(
                    ld,
                    c,
                    k as int + 1,
                ) by {
                    if col_is_blank_upto(ld, c, k as int) && (c >= ld[k as int].len()
                        || is_space_char(ld[k as int][c])) {
                        assert forall|t: int| 0 <= t < k as int + 1 implies (c >= ld[t].len()
                            || is_space_char(ld[t][c])) by {}
                    }
                }
            }
            k = k + 1;
        }
        proof {
            assert forall|c: int| 0 <= c < r@.len() implies r@[c] == col_is_blank(ld, c) by {}
        }
        r
    }

    /// For every column, the length of the blank run ending at it.
    pub fn get_whitespace_prefix_vec(is_column_whitespace: &Vec<bool>) -> (r: Vec<usize>)
        ensures
            r@.len() == is_column_whitespace@.len(),
            forall|c: int|
                0 <= c < r@.len() ==> r@[c] as int == spec_run_len(is_column_whitespace@, c),
    {
        let icw = is_column_whitespace;
        let mut r: Vec<usize> = Vec::new();
        let mut c: usize = 0;
        while c < icw.len()
            invariant
                c <= icw@.len(),
                r@.len() == c,
                forall|j: int| 0 <= j < c ==> r@[j] as int == spec_run_len(icw@, j),
            decreases icw@.len() - c,
        {
            proof {
                lemma_run_len(icw@, c as int);
            }
            let v: usize = if !icw[c] {
                0
            } else if c == 0 {
                1
            } else {
                r[c - 1] + 1
            };
            r.push(v);
            c = c + 1;
        }
        r
    }

    /// Infer the column boundaries of a batch: each pair is the start
    /// (inclusive) and end (exclusive) of one column's character range. The
    /// end of the last range may exceed the lengths of some lines.
    pub fn count_column_ranges(lines: &Vec<String>) -> (r: Vec<(usize, usize)>)
        ensures
            ranges_view(r@) == spec_column_ranges(lines.deep_view()),
            forall|i: int|
                0 <= i < r@.len() ==> (#[trigger] r@[i]).0 < r@[i].1 <= spec_max_len(
                    lines.deep_view(),
                ),
    {
        let ghost ld = lines.deep_view();
        let icw = Self::get_is_column_whitespace_vec(lines);
        proof {
            lemma_spec_max_len(ld);
            assert(icw@ =~= spec_blank_cols(ld));
        }
        let wp = Self::get_whitespace_prefix_vec(&icw);
        let mut m: usize = 0;
        let mut c: usize = 0;
        while c < wp.len()
            invariant
                c <= wp@.len(),
                wp@.len() == icw@.len(),
                forall|j: int| 0 <= j < wp@.len() ==> wp@[j] as int == spec_run_len(icw@, j),
                m as int == spec_max_run_upto(icw@, c as int),
            decreases wp@.len() - c,
        {
            if wp[c] > m {
                m = wp[c];
            }
            c = c + 1;
        }
        let w: usize = if m > 1 {
            m
        } else {
            1
        };
        proof {
            assert(w as int == spec_sep_width(icw@));
        }
        let max_len = icw.len();
        let mut ans: Vec<(usize, usize)> = Vec::new();
        let mut col_start: Option<usize> = None;
        let mut col: usize = 0;
        proof {
            assert(ranges_view(ans@) + spec_scan(icw@, w as int, 0, None) =~= spec_scan(
                icw@,
                w as int,
                0,
                None,
            ));
        }
        while col < max_len
            invariant
                col <= max_len,
                max_len == icw@.len(),
                wp@.len() == icw@.len(),
                forall|j: int| 0 <= j < wp@.len() ==> wp@[j] as int == spec_run_len(icw@, j),
                w >= 1,
                match col_start {
                    Some(st) => st < col && !icw@[st as int],
                    None => true,
                },
                forall|i: int|
                    0 <= i < ans@.len() ==> (#[trigger] ans@[i]).0 < ans@[i].1 <= max_len,
                ranges_view(ans@) + spec_scan(
                    icw@,
                    w as int,
                    col as int,
                    match col_start {
                        Some(st) => Some(st as int),
                        None => None,
                    },
                ) =~= spec_scan(icw@, w as int, 0, None),
            decreases max_len - col,
        {
            proof {
                lemma_run_len(icw@, col as int);
            }
            if wp[col] == w {
                if let Some(st) = col_start {
                    let ghost prev = ans@;
                    ans.push((st, col + 1 - w));
                    proof {
                        assert(ranges_view(ans@) =~= ranges_view(prev).push(
                            (st as int, col as int + 1 - w),
                        ));
                        assert(ranges_view(ans@) + spec_scan(icw@, w as int, col as int + 1, None)
                            =~= spec_scan(icw@, w as int, 0, None));
                    }
                }
                col_start = None;
            } else if !icw[col] && col_start.is_none() {
                col_start = Some(col);
            }
            col = col + 1;
        }
        if let Some(st) = col_start {
            let ghost prev = ans@;
            ans.push((st, max_len));
            proof {
                assert(ranges_view(ans@) =~= ranges_view(prev).push((st as int, max_len as int)));
            }
        }
        proof {
            assert(ranges_view(ans@) =~= spec_scan(icw@, w as int, 0, None));
        }
        ans
    }

    /// Build a splitter over a full batch of input lines: plain whitespace
    /// splitting when asked for, else adaptive splitting with the boundaries
    /// inferred from the whole batch.
    pub fn from_cli_and_lines(ws_sep: bool, lines: Vec<String>) -> (r: Self)
        ensures
            ws_sep ==> r == (Splitter::Whitespace { lines, cur: 0 }),
            !ws_sep ==> (r matches Splitter::Smart { lines: l, cur, column_ranges } && l == lines
                && cur == 0 && ranges_view(column_ranges@) == spec_column_ranges(
                lines.deep_view(),
            )),
    {
        if ws_sep {
            Splitter::Whitespace { lines, cur: 0 }
        } else {
            let column_ranges = Self::count_column_ranges(&lines);
            Splitter::Smart { lines, cur: 0, column_ranges }
        }
    }

    /// The next row of the input, split into fields, or nothing once every
    /// line has been handed out.
    pub fn next(&mut self) -> (r: Option<Vec<String>>)
        ensures
            match *old(self) {
                Splitter::Whitespace { lines, cur } => if cur < lines@.len() {
                    &&& r matches Some(f) && f.deep_view() == spec_ws_split(
                        lines.deep_view()[cur as int],
                    )
                    &&& *final(self) == (Splitter::Whitespace { lines, cur: (cur + 1) as usize })
                } else {
                    r is None && *final(self) == *old(self)
                },
                Splitter::Smart { lines, cur, column_ranges } => if cur < lines@.len() {
                    &&& r matches Some(f) && f.deep_view() == spec_smart_fields(
                        lines.deep_view()[cur as int],
                        ranges_view(column_ranges@),
                    )
                    &&& *final(self) == (Splitter::Smart {
                        lines,
                        cur: (cur + 1) as usize,
                        column_ranges,
                    })
                } else {
                    r is None && *final(self) == *old(self)
                },
            },
    {
        match self {
            Splitter::Whitespace { lines, cur } => {
                if *cur >= lines.len() {
                    None
                } else {
                    let f = ws_split(lines[*cur].as_str());
                    *cur = *cur + 1;
                    Some(f)
                }
            },
            Splitter::Smart { lines, cur, column_ranges } => {
                if *cur >= lines.len() {
                    None
                } else {
                    let ghost lv = lines.deep_view()[*cur as int];
                    let ghost rvv = ranges_view(column_ranges@);
                    let line = &lines[*cur];
                    let llen = line.as_str().unicode_len();
                    let mut fields: Vec<String> = Vec::new();
                    let mut i: usize = 0;
                    while i < column_ranges.len()
                        invariant
                            i <= column_ranges@.len(),
                            lv == line@,
                            llen == line@.len(),
                            rvv == ranges_view(column_ranges@),
                            fields.deep_view().len() == i,
                            forall|j: int|
                                0 <= j < i ==> fields.deep_view()[j] == spec_smart_fields(
                                    lv,
                                    rvv,
                                )[j],
                        decreases column_ranges@.len() - i,
                    {
                        let (b, e) = column_ranges[i];
                        let e2 = if e < llen {
                            e
                        } else {
                            llen
                        };
                        let b2 = if b < e2 {
                            b
                        } else {
                            e2
                        };
                        let sub = line.as_str().substring_char(b2, e2);
                        let ghost prev = fields.deep_view();
                        fields.push(trim_str(sub));
                        proof {
                            assert(fields.deep_view() =~= prev.push(spec_trim(sub@)));
                            assert(rvv[i as int] == (b as int, e as int));
                            assert(fields.deep_view()[i as int] == spec_smart_fields(
                                lv,
                                rvv,
                            )[i as int]);
                        }
                        i = i + 1;
                    }
                    proof {
                        assert(fields.deep_view() =~= spec_smart_fields(lv, rvv));
                    }
                    *cur = *cur + 1;
                    Some(fields)
                }
            },
        }
    }
}

} // verus!
