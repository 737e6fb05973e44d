//! The compiled query and the row engine: evaluate the filter against one
//! row, and project the selected columns.

use vstd::prelude::*;

use crate::condition::{eval, expr_first_out_of_range, expr_in_range, ConditionExpr};

verus! {

/// A failure while processing one row.
#[derive(Debug)]
pub enum LineProcessError {
    ColumnOutOfRangeError(ColumnOutOfRangeError),
}

/// A resolved column index exceeded the width of the row at hand. Reported
/// per offending row; rows may have inconsistent widths.
#[derive(Debug)]
pub struct ColumnOutOfRangeError {
    /// The offending column reference, one-based.
    pub col_num: usize,
    /// The actual number of fields in the row.
    pub col_count: usize,
}

/// An executable query: the selected columns, in selection order with
/// duplicates preserved, and the filter tree. Immutable after compilation.
#[derive(Debug)]
pub struct Query {
    pub column_ids: Vec<usize>,
    pub cond_expr: ConditionExpr,
}

/// The first selected column (in selection order) whose index is not below
/// `width`, if any.
pub open spec fn selection_first_out_of_range(cols: Seq<usize>, width: nat) -> Option<usize>
    decreases cols.len(),
{
    if cols.len() == 0 {
        None
    } else if (cols[0] as nat) >= width {
        Some(cols[0])
    } else {
        selection_first_out_of_range(cols.drop_first(), width)
    }
}

/// Every selected column lies below `width`.
pub open spec fn selection_in_range(cols: Seq<usize>, width: nat) -> bool {
    forall|i: int| 0 <= i < cols.len() ==> (cols[i] as nat) < width
}

/// The projection of a row: for every selected column, in order, the field at
/// that index.
pub open spec fn spec_projection(cols: Seq<usize>, row: Seq<Seq<char>>) -> Seq<Seq<char>> {
    Seq::new(cols.len(), |i: int| row[cols[i] as int])
}

/// The column reported for a row, if any: the first out-of-range reference in
/// the filter (evaluation order), else, when the filter passes, the first
/// out-of-range selected column. A row the filter drops is never an error on
/// account of its selection.
pub open spec fn spec_row_error_at(
    cols: Seq<usize>,
    cond: crate::condition::SpecCondExpr,
    row: Seq<Seq<char>>,
) -> Option<usize> {
    match expr_first_out_of_range(cond, row.len() as nat) {
        Some(c) => Some(c),
        None => if eval(cond, row) {
            selection_first_out_of_range(cols, row.len() as nat)
        } else {
            None
        },
    }
}

pub open spec fn spec_row_error(q: &Query, row: Seq<Seq<char>>) -> Option<usize> {
    spec_row_error_at(q.column_ids@, q.cond_expr@, row)
}

/// Whatever column `selection_first_out_of_range` reports is one of the
/// selected columns, hence below any bound they all respect.
proof fn lemma_selection_first_out_of_range_bound(cols: Seq<usize>, width: nat, bound: nat)
    requires
        selection_in_range(cols, bound),
    ensures
        selection_first_out_of_range(cols, width) matches Some(c) ==> (c as nat) < bound,
    decreases cols.len(),
{
    if cols.len() > 0 {
        assert(forall|i: int|
            0 <= i < cols.drop_first().len() ==> cols.drop_first()[i] == cols[i + 1]);
        lemma_selection_first_out_of_range_bound(cols.drop_first(), width, bound);
    }
}

/// Whatever column `expr_first_out_of_range` reports is one the expression
/// mentions, hence below any bound the expression respects.
proof fn lemma_expr_first_out_of_range_bound(e: crate::condition::SpecCondExpr, width: nat, bound: nat)
    requires
        expr_in_range(e, bound),
    ensures
        expr_first_out_of_range(e, width) matches Some(c) ==> (c as nat) < bound,
    decreases e,
{
    match e {
        crate::condition::SpecCondExpr::And(l, r) => {
            lemma_expr_first_out_of_range_bound(*l, width, bound);
            lemma_expr_first_out_of_range_bound(*r, width, bound);
        },
        crate::condition::SpecCondExpr::Or(l, r) => {
            lemma_expr_first_out_of_range_bound(*l, width, bound);
            lemma_expr_first_out_of_range_bound(*r, width, bound);
        },
        _ => {},
    }
}

/// Law: projecting selects by position. The output has one entry per
/// selected column, in selection order, and the entry for a selection that
/// resolved to index `c` is exactly the row's field `c` — so selecting the
/// 1-based column `N` yields the field at index `N - 1`.
pub proof fn lemma_projection_selects_by_index(cols: Seq<usize>, row: Seq<Seq<char>>, p: int)
    requires
        0 <= p < cols.len(),
    ensures
        spec_projection(cols, row).len() == cols.len(),
        spec_projection(cols, row)[p] == row[cols[p] as int],
{
}

/// Law: selecting the same column twice yields two identical entries, each in
/// its own selection position.
pub proof fn lemma_duplicate_selection_duplicates_field(
    cols: Seq<usize>,
    row: Seq<Seq<char>>,
    p1: int,
    p2: int,
)
    requires
        0 <= p1 < cols.len(),
        0 <= p2 < cols.len(),
        cols[p1] == cols[p2],
    ensures
        spec_projection(cols, row)[p1] == spec_projection(cols, row)[p2],
{
}

impl Query {
    /// Process one row: drop it when the filter fails, project it when the
    /// filter passes, and report the first out-of-range column reference.
    pub fn process_line(&self, row: &Vec<String>) -> (r: Result<
        Option<Vec<String>>,
        LineProcessError,
    >)
        requires
            selection_in_range(self.column_ids@, usize::MAX as nat),
            expr_in_range(self.cond_expr@, usize::MAX as nat),
        ensures
            ({
                let rv = row.deep_view();
                match spec_row_error(self, rv) {
                    Some(c) => r matches Err(LineProcessError::ColumnOutOfRangeError(e))
                        && e.col_num == c + 1 && e.col_count == row@.len(),
                    None => if eval(self.cond_expr@, rv) {
                        r matches Ok(Some(out)) && out.deep_view() == spec_projection(
                            self.column_ids@,
                            rv,
                        )
                    } else {
                        r == Ok::<Option<Vec<String>>, LineProcessError>(None)
                    },
                }
            }),
    {
        proof {
            assert(row.deep_view().len() == row@.len());
            lemma_expr_first_out_of_range_bound(
                self.cond_expr@,
                row@.len() as nat,
                usize::MAX as nat,
            );
        }
        match self.expr_out_of_range(row) {
            Some(c) => Err(
                LineProcessError::ColumnOutOfRangeError(
                    ColumnOutOfRangeError { col_num: c + 1, col_count: row.len() },
                ),
            ),
            None => {
                if self.cond_expr.check(row) {
                    match self.get_columns(row) {
                        Ok(out) => Ok(Some(out)),
                        Err(e) => Err(e),
                    }
                } else {
                    Ok(None)
                }
            },
        }
    }

    /// Project a row without consulting the filter: used for the header row,
    /// which must be shaped like every data row.
    pub fn process_line_no_check(&self, row: &Vec<String>) -> (r: Result<
        Vec<String>,
        LineProcessError,
    >)
        requires
            selection_in_range(self.column_ids@, usize::MAX as nat),
        ensures
            ({
                let rv = row.deep_view();
                match selection_first_out_of_range(self.column_ids@, rv.len() as nat) {
                    Some(c) => r matches Err(LineProcessError::ColumnOutOfRangeError(e))
                        && e.col_num == c + 1 && e.col_count == row@.len(),
                    None => r matches Ok(out) && out.deep_view() == spec_projection(
                        self.column_ids@,
                        rv,
                    ),
                }
            }),
    {
        self.get_columns(row)
    }

    /// The first out-of-range column mentioned by the filter, against this
    /// row's width.
    fn expr_out_of_range(&self, row: &Vec<String>) -> (r: Option<usize>)
        ensures
            r == expr_first_out_of_range(self.cond_expr@, row@.len() as nat),
            r is None ==> expr_in_range(self.cond_expr@, row@.len() as nat),
    {
        let width = row.len();
        let r = Self::expr_out_of_range_rec(&self.cond_expr, width);
        proof {
            Self::lemma_expr_first_out_of_range(self.cond_expr@, width as nat);
        }
        r
    }

    fn expr_out_of_range_rec(e: &ConditionExpr, width: usize) -> (r: Option<usize>)
        ensures
            r == expr_first_out_of_range(e@, width as nat),
        decreases e,
    {
        match e {
            ConditionExpr::Condition(c) => {
                match &c.0 {
                    crate::condition::ConditionOperand::ColumnId(i) if *i >= width => {
                        return Some(*i);
                    },
                    _ => {},
                }
                match &c.1 {
                    crate::condition::ConditionOperand::ColumnId(i) if *i >= width => Some(*i),
                    _ => None,
                }
            },
            ConditionExpr::True(_) => None,
            ConditionExpr::And(l, r) => match Self::expr_out_of_range_rec(l, width) {
                Some(c) => Some(c),
                None => Self::expr_out_of_range_rec(r, width),
            },
            ConditionExpr::Or(l, r) => match Self::expr_out_of_range_rec(l, width) {
                Some(c) => Some(c),
                None => Self::expr_out_of_range_rec(r, width),
            },
        }
    }

    proof fn lemma_expr_first_out_of_range(e: crate::condition::SpecCondExpr, width: nat)
        ensures
            expr_first_out_of_range(e, width) is None <==> expr_in_range(e, width),
        decreases e,
    {
        match e {
            crate::condition::SpecCondExpr::And(l, r) => {
                Self::lemma_expr_first_out_of_range(*l, width);
                Self::lemma_expr_first_out_of_range(*r, width);
            },
            crate::condition::SpecCondExpr::Or(l, r) => {
                Self::lemma_expr_first_out_of_range(*l, width);
                Self::lemma_expr_first_out_of_range(*r, width);
            },
            _ => {},
        }
    }

    /// Copy the field at every selected column, in selection order, or report
    /// the first selected column the row does not reach.
    fn get_columns(&self, row: &Vec<String>) -> (r: Result<Vec<String>, LineProcessError>)
        requires
            selection_in_range(self.column_ids@, usize::MAX as nat),
        ensures
            ({
                let rv = row.deep_view();
                match selection_first_out_of_range(self.column_ids@, rv.len() as nat) {
                    Some(c) => r matches Err(LineProcessError::ColumnOutOfRangeError(e))
                        && e.col_num == c + 1 && e.col_count == row@.len(),
                    None => r matches Ok(out) && out.deep_view() == spec_projection(
                        self.column_ids@,
                        rv,
                    ),
                }
            }),
    {
        let cols = &self.column_ids;
        let mut ans: Vec<String> = Vec::new();
        let mut idx: usize = 0;
        proof {
            assert(row.deep_view().len() == row@.len());
        }
        proof {
            assert(cols@.skip(0) =~= cols@);
        }
        while idx < cols.len()
            invariant
                idx <= cols@.len(),
                selection_in_range(cols@, usize::MAX as nat),
                cols == &self.column_ids,
                selection_first_out_of_range(cols@, row@.len() as nat)
                    == selection_first_out_of_range(
                    cols@.skip(idx as int),
                    row@.len() as nat,
                ),
                ans.deep_view() == spec_projection(cols@.take(idx as int), row.deep_view()),
                row.deep_view().len() == row@.len(),
            decreases cols@.len() - idx,
        {
            let col_id = cols[idx];
            if col_id < row.len() {
                let ghost prev = ans.deep_view();
                ans.push(row[col_id].clone());
                proof {
                    assert(cols@.skip(idx as int).drop_first() =~= cols@.skip(idx as int + 1));
                    assert(cols@.skip(idx as int)[0] == cols@[idx as int]);
                    assert(ans.deep_view() =~= spec_projection(
                        cols@.take(idx as int + 1),
                        row.deep_view(),
                    )) by {
                        assert(ans.deep_view() =~= prev.push(row.deep_view()[col_id as int]));
                    }
                }
                idx = idx + 1;
            } else {
                proof {
                    assert(cols@.skip(idx as int)[0] == cols@[idx as int]);
                }
                return Err(
                    LineProcessError::ColumnOutOfRangeError(
                        ColumnOutOfRangeError { col_num: col_id + 1, col_count: row.len() },
                    ),
                );
            }
        }
        proof {
            assert(cols@.take(idx as int) =~= cols@);
            assert(cols@.skip(idx as int) =~= Seq::<usize>::empty());
        }
        Ok(ans)
    }
}

} // verus!
