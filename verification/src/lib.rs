//! Select and filter columns from loosely structured tabular text.
//!
//! A query names output columns by 1-based ordinal or by header name and may
//! end in an `if` clause: a boolean tree of string-equality tests combined
//! with `and`/`or`. Input lines are split into rows either at whitespace runs
//! or by adaptive column-boundary inference over the whole input, the query
//! is compiled against the first row, and every passing row's selected
//! columns are rendered to output lines.

use vstd::prelude::*;

pub mod condition;
pub mod grammar;
pub mod parser;
pub mod printer;
pub mod query;
pub mod splitter;
pub mod text;

use crate::condition::{eval, expr_in_range, SpecCondExpr};
use crate::parser::{parse, parse_err_matches, spec_parse_result, ParseError, SpecParseResult};
use crate::printer::{spec_render, Printer, PrinterStyle};
use crate::query::{
    selection_first_out_of_range, selection_in_range, spec_projection, spec_row_error_at,
    LineProcessError,
};
use crate::splitter::{
    ranges_view, spec_column_ranges, spec_smart_fields, spec_ws_split, Splitter,
};

verus! {

/// A failure of the whole run: the query would not compile, or a row could
/// not be processed.
#[derive(Debug)]
pub enum MainError {
    QueryParseError(ParseError),
    LineProcessError(LineProcessError),
}

/// The rows a batch of lines splits into, under either strategy.
pub open spec fn spec_split_rows(lines: Seq<Seq<char>>, ws_sep: bool) -> Seq<Seq<Seq<char>>> {
    if ws_sep {
        lines.map_values(|l: Seq<char>| spec_ws_split(l))
    } else {
        lines.map_values(|l: Seq<char>| spec_smart_fields(l, spec_column_ranges(lines)))
    }
}

/// Process the data rows from index `k` on: the first out-of-range column
/// reference aborts with that column and the offending row's width; otherwise
/// the passing rows' projections, in input order, rows the filter drops
/// leaving no trace.
pub open spec fn spec_process_rows(
    cols: Seq<usize>,
    cond: SpecCondExpr,
    rows: Seq<Seq<Seq<char>>>,
    k: int,
) -> Result<Seq<Seq<Seq<char>>>, (usize, int)>
    decreases rows.len() - k,
{
    if k < 0 || k >= rows.len() {
        Ok(Seq::empty())
    } else {
        match spec_row_error_at(cols, cond, rows[k]) {
            Some(c) => Err((c, rows[k].len() as int)),
            None => match spec_process_rows(cols, cond, rows, k + 1) {
                Err(e) => Err(e),
                Ok(rest) => if eval(cond, rows[k]) {
                    Ok(seq![spec_projection(cols, rows[k])] + rest)
                } else {
                    Ok(rest)
                },
            },
        }
    }
}

/// Rows already emitted, in front of what a processing tail yields.
pub open spec fn prepend_rows(
    acc: Seq<Seq<Seq<char>>>,
    r: Result<Seq<Seq<Seq<char>>>, (usize, int)>,
) -> Result<Seq<Seq<Seq<char>>>, (usize, int)> {
    match r {
        Ok(rest) => Ok(acc + rest),
        Err(e) => Err(e),
    }
}

/// What one whole run yields: a compilation failure, the first row-width
/// failure, or the rendered output lines.
pub enum SpecRunResult {
    Parse(SpecParseResult),
    Row { col: usize, width: int },
    Out(Seq<Seq<char>>),
}

/// The meaning of a whole run. Empty input yields no output. Otherwise the
/// lines split into rows, the query compiles against the first row, and the
/// first row is data exactly when neither a flag nor a name reference claims
/// it as header; a claimed header is projected like any row but emitted only
/// when printing it was asked for.
pub open spec fn spec_run(
    q: Seq<char>,
    lines: Seq<Seq<char>>,
    ws_sep: bool,
    has_header_flag: bool,
    print_header_flag: bool,
    no_pretty: bool,
) -> SpecRunResult {
    let style = if no_pretty {
        PrinterStyle::Simple
    } else {
        PrinterStyle::Table
    };
    if lines.len() == 0 {
        SpecRunResult::Out(Seq::empty())
    } else {
        let rows = spec_split_rows(lines, ws_sep);
        match spec_parse_result(q, rows[0]) {
            SpecParseResult::Done { column_ids, cond, header_required } => {
                let has_header = has_header_flag || print_header_flag || header_required;
                if has_header {
                    match selection_first_out_of_range(column_ids, rows[0].len() as nat) {
                        Some(c) => SpecRunResult::Row { col: c, width: rows[0].len() as int },
                        None => match spec_process_rows(column_ids, cond, rows, 1) {
                            Err(e) => SpecRunResult::Row { col: e.0, width: e.1 },
                            Ok(outs) => SpecRunResult::Out(
                                spec_render(
                                    style,
                                    if print_header_flag {
                                        seq![spec_projection(column_ids, rows[0])] + outs
                                    } else {
                                        outs
                                    },
                                ),
                            ),
                        },
                    }
                } else {
                    match spec_process_rows(column_ids, cond, rows, 0) {
                        Err(e) => SpecRunResult::Row { col: e.0, width: e.1 },
                        Ok(outs) => SpecRunResult::Out(spec_render(style, outs)),
                    }
                }
            },
            other => SpecRunResult::Parse(other),
        }
    }
}

/// Law: a query with at least one header-name reference consumes the first
/// row as header whatever the flags say — setting the header flag changes
/// nothing — and the header row is never projected into the output unless
/// printing it was asked for: without that flag the output renders exactly
/// what the rows after the first yield.
pub proof fn lemma_name_query_consumes_header(
    q: Seq<char>,
    lines: Seq<Seq<char>>,
    ws_sep: bool,
    print_header_flag: bool,
    no_pretty: bool,
)
    requires
        lines.len() > 0,
        spec_parse_result(q, spec_split_rows(lines, ws_sep)[0]) matches SpecParseResult::Done {
            header_required,
            ..
        } && header_required,
    ensures
        spec_run(q, lines, ws_sep, true, print_header_flag, no_pretty) == spec_run(
            q,
            lines,
            ws_sep,
            false,
            print_header_flag,
            no_pretty,
        ),
        ({
            let rows = spec_split_rows(lines, ws_sep);
            let style = if no_pretty {
                PrinterStyle::Simple
            } else {
                PrinterStyle::Table
            };
            match spec_parse_result(q, rows[0]) {
                SpecParseResult::Done { column_ids, cond, .. } => spec_run(
                    q,
                    lines,
                    ws_sep,
                    false,
                    false,
                    no_pretty,
                ) matches SpecRunResult::Out(out) ==> match spec_process_rows(
                    column_ids,
                    cond,
                    rows,
                    1,
                ) {
                    Ok(outs) => out == spec_render(style, outs),
                    Err(_) => false,
                },
                _ => true,
            }
        }),
{
}

/// Law: a query with only numeric column references treats the first row as
/// ordinary data — with no flag claiming a header, processing starts at the
/// very first row.
pub proof fn lemma_numeric_query_first_row_is_data(
    q: Seq<char>,
    lines: Seq<Seq<char>>,
    ws_sep: bool,
    no_pretty: bool,
)
    requires
        lines.len() > 0,
        crate::parser::query_parses_without_names(q),
    ensures
        ({
            let rows = spec_split_rows(lines, ws_sep);
            let style = if no_pretty {
                PrinterStyle::Simple
            } else {
                PrinterStyle::Table
            };
            match spec_parse_result(q, rows[0]) {
                SpecParseResult::Done { column_ids, cond, header_required } => !header_required
                    && spec_run(q, lines, ws_sep, false, false, no_pretty) == (
                match spec_process_rows(column_ids, cond, rows, 0) {
                    Err(e) => SpecRunResult::Row { col: e.0, width: e.1 },
                    Ok(outs) => SpecRunResult::Out(spec_render(style, outs)),
                }),
                _ => true,
            }
        }),
{
    let rows = spec_split_rows(lines, ws_sep);
    crate::parser::lemma_numeric_query_ignores_first_row(q, rows[0], rows[0]);
}

/// Run one query over a full batch of input lines and yield the output
/// lines: the executable counterpart of `spec_run`.
pub fn run(
    query_string: &str,
    lines: Vec<String>,
    ws_sep: bool,
    has_header: bool,
    print_header: bool,
    no_pretty: bool,
) -> (r: Result<Vec<String>, MainError>)
    ensures
        match spec_run(query_string@, lines.deep_view(), ws_sep, has_header, print_header, no_pretty) {
            SpecRunResult::Out(out) => r matches Ok(v) && v.deep_view() == out,
            SpecRunResult::Parse(pr) => r matches Err(MainError::QueryParseError(e))
                && parse_err_matches(e, pr, query_string@),
            SpecRunResult::Row { col, width } => r matches Err(
                MainError::LineProcessError(LineProcessError::ColumnOutOfRangeError(e)),
            ) && e.col_num == col + 1 && e.col_count == width,
        },
{
    let ghost linesd = lines.deep_view();
    let style = PrinterStyle::from_cli(no_pretty);
    let n_lines = lines.len();
    proof {
        assert(linesd.len() == lines@.len());
    }
    if n_lines == 0 {
        let out: Vec<String> = Vec::new();
        proof {
            assert(out.deep_view() =~= Seq::<Seq<char>>::empty());
        }
        return Ok(out);
    }
    let ghost rows = spec_split_rows(linesd, ws_sep);
    let mut splitter = Splitter::from_cli_and_lines(ws_sep, lines);
    let first = match splitter.next() {
        Some(f) => f,
        None => {
            proof {
                assert(false);
            }
            return Ok(Vec::new());
        },
    };
    proof {
        assert(first.deep_view() == rows[0]);
    }
    let ans = match parse(query_string, &first) {
        Ok(a) => a,
        Err(e) => {
            return Err(MainError::QueryParseError(e));
        },
    };
    let ghost cols = ans.query.column_ids@;
    let ghost cond = ans.query.cond_expr@;
    let ncols = ans.query.column_ids.len();
    let has_header2 = has_header || print_header || ans.is_header_required;
    let mut printer = Printer::new(style, has_header2, print_header);
    let ghost start: int = if has_header2 {
        1
    } else {
        0
    };
    let ghost hdr_prefix: Seq<Seq<Seq<char>>> = if has_header2 && print_header {
        seq![spec_projection(cols, rows[0])]
    } else {
        Seq::empty()
    };
    let ghost mut processed: Seq<Seq<Seq<char>>> = Seq::empty();
    if has_header2 {
        match ans.query.process_line_no_check(&first) {
            Ok(h) => {
                proof {
                    assert(h.deep_view().len() == cols.len());
                    assert(h@.len() == cols.len());
                }
                printer.push_header(h);
                proof {
                    assert(printer.column_count matches Some(cc) && cc == ncols);
                    assert(printer.data.deep_view() =~= hdr_prefix);
                }
            },
            Err(e) => {
                return Err(MainError::LineProcessError(e));
            },
        }
    } else {
        match ans.query.process_line(&first) {
            Ok(out) => {
                match out {
                    Some(row) => {
                        proof {
                            assert(row.deep_view().len() == cols.len());
                            assert(row@.len() == cols.len());
                        }
                        printer.push_row(row);
                        proof {
                            assert(printer.column_count matches Some(cc) && cc == ncols);
                            processed = seq![spec_projection(cols, rows[0])];
                            assert(printer.data.deep_view() =~= hdr_prefix + processed);
                        }
                    },
                    None => {
                        proof {
                            assert(printer.data.deep_view() =~= hdr_prefix + processed);
                        }
                    },
                }
            },
            Err(e) => {
                return Err(MainError::LineProcessError(e));
            },
        }
    }
    proof {
        assert(prepend_rows(processed, spec_process_rows(cols, cond, rows, 1)) == spec_process_rows(
            cols,
            cond,
            rows,
            start,
        )) by {
            if start == 1 {
                match spec_process_rows(cols, cond, rows, 1) {
                    Ok(rest) => {
                        assert(processed + rest =~= rest);
                    },
                    Err(_) => {},
                }
            } else {
                match spec_process_rows(cols, cond, rows, 1) {
                    Ok(rest) => {
                        if eval(cond, rows[0]) {
                            assert(processed + rest =~= seq![spec_projection(cols, rows[0])]
                                + rest);
                        } else {
                            assert(processed + rest =~= rest);
                        }
                    },
                    Err(_) => {},
                }
            }
        }
    }
    let ghost mut k: int = 1;
    loop
        invariant
            1 <= k <= linesd.len(),
            linesd.len() <= usize::MAX,
            rows == spec_split_rows(linesd, ws_sep),
            rows.len() == linesd.len(),
            match splitter {
                Splitter::Whitespace { lines: l, cur } => ws_sep && l.deep_view() == linesd && k
                    == cur,
                Splitter::Smart { lines: l, cur, column_ranges } => !ws_sep && l.deep_view()
                    == linesd && k == cur && ranges_view(column_ranges@) == spec_column_ranges(
                    linesd,
                ),
            },
            linesd == lines.deep_view(),
            ncols == cols.len(),
            hdr_prefix == if has_header2 && print_header {
                seq![spec_projection(cols, rows[0])]
            } else {
                Seq::<Seq<Seq<char>>>::empty()
            },
            ans.query.column_ids@ == cols,
            ans.query.cond_expr@ == cond,
            selection_in_range(cols, usize::MAX as nat),
            expr_in_range(cond, usize::MAX as nat),
            spec_parse_result(query_string@, rows[0]) matches SpecParseResult::Done {
                column_ids,
                cond: c2,
                header_required,
            } && column_ids == cols && c2 == cond && has_header2 == (has_header || print_header
                || header_required),
            has_header2 ==> selection_first_out_of_range(cols, rows[0].len() as nat) is None,
            printer.wf(),
            printer.style == style,
            printer.has_header == has_header2,
            printer.print_header == print_header,
            printer.data.deep_view() == hdr_prefix + processed,
            printer.column_count is None ==> !has_header2,
            printer.column_count matches Some(cc) ==> cc == cols.len(),
            hdr_prefix.len() <= 1,
            processed.len() <= k - start,
            start == if has_header2 {
                1int
            } else {
                0int
            },
            prepend_rows(processed, spec_process_rows(cols, cond, rows, k)) == spec_process_rows(
                cols,
                cond,
                rows,
                start,
            ),
        ensures
            k == rows.len(),
            linesd == lines.deep_view(),
            printer.wf(),
            printer.style == style,
            printer.data.deep_view() == hdr_prefix + processed,
            spec_process_rows(cols, cond, rows, start) == Ok::<_, (usize, int)>(processed),
            spec_parse_result(query_string@, rows[0]) matches SpecParseResult::Done {
                column_ids,
                cond: c2,
                header_required,
            } && column_ids == cols && c2 == cond && has_header2 == (has_header || print_header
                || header_required),
            has_header2 ==> selection_first_out_of_range(cols, rows[0].len() as nat) is None,
        decreases linesd.len() - k,
    {
        let row = match splitter.next() {
            Some(row) => row,
            None => {
                proof {
                    assert(spec_process_rows(cols, cond, rows, k) == Ok::<_, (usize, int)>(
                        Seq::<Seq<Seq<char>>>::empty(),
                    ));
                    assert(processed + Seq::<Seq<Seq<char>>>::empty() =~= processed);
                }
                break ;
            },
        };
        proof {
            assert(row.deep_view() == rows[k]);
        }
        match ans.query.process_line(&row) {
            Ok(out) => {
                proof {
                    assert(spec_row_error_at(cols, cond, rows[k]) is None);
                }
                match out {
                    Some(data_row) => {
                        proof {
                            assert(k < linesd.len());
                            assert(data_row.deep_view().len() == cols.len());
                            assert(data_row@.len() == cols.len());
                            assert(printer.data@.len() == printer.data.deep_view().len());
                            assert(printer.data@.len() <= hdr_prefix.len() + processed.len());
                            assert(hdr_prefix.len() == if has_header2 && print_header {
                                1int
                            } else {
                                0int
                            });
                        }
                        printer.push_row(data_row);
                        proof {
                            assert(data_row@.len() as usize == ncols);
                            let ghost prev = processed;
                            processed = processed.push(spec_projection(cols, rows[k]));
                            assert(printer.data.deep_view() =~= hdr_prefix + processed);
                            match spec_process_rows(cols, cond, rows, k + 1) {
                                Ok(rest) => {
                                    assert(processed + rest =~= prev + (seq![
                                        spec_projection(cols, rows[k]),
                                    ] + rest));
                                },
                                Err(_) => {},
                            }
                        }
                    },
                    None => {},
                }
            },
            Err(e) => {
                proof {
                    assert(row.deep_view().len() == row@.len());
                    assert(spec_process_rows(cols, cond, rows, k) matches Err(p) && (
                    spec_process_rows(cols, cond, rows, start) == spec_process_rows(
                        cols,
                        cond,
                        rows,
                        k,
                    )));
                }
                return Err(MainError::LineProcessError(e));
            },
        }
        proof {
            k = k + 1;
        }
    }
    let out = printer.finish();
    proof {
        assert(hdr_prefix + processed == if has_header2 && print_header {
            seq![spec_projection(cols, rows[0])] + processed
        } else {
            processed
        }) by {
            if !(has_header2 && print_header) {
                assert(hdr_prefix + processed =~= processed);
            }
        }
    }
    Ok(out)
}

} // verus!
