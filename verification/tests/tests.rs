use tx::condition::{ConditionExpr, ConditionOperand, EqCondition};
use tx::parser::{parse, ParseError};
use tx::query::{LineProcessError, Query};
use tx::run;
use tx::splitter::Splitter;
use tx::MainError;

fn lines(v: &[&str]) -> Vec<String> {
    v.iter().map(|s| s.to_string()).collect()
}

fn run_ok(query: &str, input: &[&str], ws: bool, has_h: bool, print_h: bool) -> Vec<String> {
    run(query, lines(input), ws, has_h, print_h, false).unwrap()
}

#[test]
fn basic() {
    let out = run_ok("2 1", &["A B C", "1 2 3", "4 5 6"], false, false, false);
    assert_eq!(out, lines(&["B A", "2 1", "5 4"]));
}

#[test]
fn named_columns() {
    let out = run_ok("B A", &["A B C", "1 2 3", "4 5 6"], false, false, false);
    assert_eq!(out, lines(&["2 1", "5 4"]));
}

#[test]
fn print_header() {
    let out = run_ok("2 1", &["A B C", "1 2 3", "4 5 6"], false, false, true);
    assert_eq!(out, lines(&["B A", "2 1", "5 4"]));
}

#[test]
fn has_header_no_print() {
    let out = run_ok("2 1", &["A B C", "1 2 3", "4 5 6"], false, true, false);
    assert_eq!(out, lines(&["2 1", "5 4"]));
}

#[test]
fn smart_split() {
    let out = run_ok(
        "AGE",
        &[
            "ID  NAME          AGE",
            "1   Ivan Ivanov   18",
            "2   Peter Petrov  23",
            "3   John Johnson  50",
        ],
        false,
        false,
        false,
    );
    assert_eq!(out, lines(&["18", "23", "50"]));
}

#[test]
fn basic_condition() {
    let out = run_ok(
        r#"NAME if AGE = "18""#,
        &[
            "ID  NAME          AGE",
            "1   Ivan Ivanov   18",
            "2   Peter Petrov  23",
            "3   John Johnson  50",
        ],
        false,
        false,
        false,
    );
    assert_eq!(out, lines(&["Ivan Ivanov"]));
}

#[test]
fn condition_or() {
    let out = run_ok(
        r#"NAME if AGE = "18" or ID = "2""#,
        &[
            "ID  NAME          AGE",
            "1   Ivan Ivanov   18",
            "2   Peter Petrov  23",
            "3   John Johnson  50",
        ],
        false,
        false,
        false,
    );
    assert_eq!(out, lines(&["Ivan Ivanov", "Peter Petrov"]));
}

#[test]
fn condition_and() {
    let out = run_ok(
        r#"NAME if AGE = "23" and ID = "1""#,
        &[
            "ID  NAME          AGE",
            "1   Ivan Ivanov   18",
            "2   Peter Petrov  23",
            "3   John Johnson  50",
        ],
        false,
        false,
        false,
    );
    assert_eq!(out, Vec::<String>::new());
}

#[test]
fn complex_condition() {
    let out = run_ok(
        r#"A B C if (A = "0" | A = "1") & (B = "1" | C = "2")"#,
        &["A B C", "0 0 0", "0 0 2", "0 1 1", "1 2 0", "2 0 0", "2 1 2"],
        false,
        false,
        false,
    );
    assert_eq!(out, lines(&["0 0 2", "0 1 1"]));
}

#[test]
fn whitespace_mode_splits_every_run() {
    let out = run_ok("2 1", &["a   b", "c\td"], true, false, false);
    assert_eq!(out, lines(&["b a", "d c"]));
}

#[test]
fn empty_input_yields_no_output() {
    let out = run("1", Vec::new(), false, false, false, false).unwrap();
    assert_eq!(out, Vec::<String>::new());
}

#[test]
fn duplicate_header_names_fail_with_both_positions() {
    let err = run("B", lines(&["A B A", "1 2 3"]), false, false, false, false).unwrap_err();
    match err {
        MainError::QueryParseError(ParseError::SameColumnNamesError(e)) => {
            assert_eq!(e.first_column_id, 0);
            assert_eq!(e.second_column_id, 2);
            assert_eq!(e.column_name, "A");
        }
        _ => panic!("expected a duplicate-header error"),
    }
}

#[test]
fn duplicate_header_ignored_without_name_references() {
    let out = run_ok("2", &["A B A", "1 2 3"], false, false, false);
    assert_eq!(out, lines(&["B", "2"]));
}

#[test]
fn unknown_column_name_fails() {
    let err = run("Z", lines(&["A B C", "1 2 3"]), false, false, false, false).unwrap_err();
    match err {
        MainError::QueryParseError(ParseError::ColumnNotFoundError(e)) => {
            assert_eq!(e.column_name, "Z");
        }
        _ => panic!("expected a column-not-found error"),
    }
}

#[test]
fn zero_ordinal_is_rejected() {
    let err = run("0", lines(&["a b"]), false, false, false, false).unwrap_err();
    match err {
        MainError::QueryParseError(ParseError::InvalidColumnNumberError(e)) => {
            assert_eq!(e.column_number, "0");
        }
        _ => panic!("expected an invalid-ordinal error"),
    }
}

#[test]
fn oversized_ordinal_is_rejected() {
    let err = run(
        "99999999999999999999999999",
        lines(&["a b"]),
        false,
        false,
        false,
        false,
    )
    .unwrap_err();
    match err {
        MainError::QueryParseError(ParseError::InvalidColumnNumberError(e)) => {
            assert_eq!(e.column_number, "99999999999999999999999999");
        }
        _ => panic!("expected an invalid-ordinal error"),
    }
}

#[test]
fn syntax_error_reports_position() {
    let err = run("1 if", lines(&["a b"]), false, false, false, false).unwrap_err();
    match err {
        MainError::QueryParseError(ParseError::SyntaxError(e)) => {
            assert_eq!(e.position, 4);
            assert_eq!(e.query, "1 if");
        }
        _ => panic!("expected a syntax error"),
    }
}

#[test]
fn unterminated_string_reports_opening_quote() {
    let err = run(r#"1 if A = "x"#, lines(&["A b"]), false, false, false, false).unwrap_err();
    match err {
        MainError::QueryParseError(ParseError::SyntaxError(e)) => {
            assert_eq!(e.position, 9);
        }
        _ => panic!("expected a syntax error"),
    }
}

#[test]
fn trailing_garbage_reports_its_position() {
    let err = run("1 2)", lines(&["a b"]), false, false, false, false).unwrap_err();
    match err {
        MainError::QueryParseError(ParseError::SyntaxError(e)) => {
            assert_eq!(e.position, 3);
        }
        _ => panic!("expected a syntax error"),
    }
}

#[test]
fn column_beyond_row_width_fails_that_row() {
    let err = run("3", lines(&["a b", "c d"]), false, false, false, false).unwrap_err();
    match err {
        MainError::LineProcessError(LineProcessError::ColumnOutOfRangeError(e)) => {
            assert_eq!(e.col_num, 3);
            assert_eq!(e.col_count, 2);
        }
        _ => panic!("expected a column-out-of-range error"),
    }
}

#[test]
fn selecting_a_column_twice_duplicates_it() {
    let out = run_ok("1 1", &["x y"], false, false, false);
    assert_eq!(out, lines(&["x x"]));
}

#[test]
fn filter_is_exact_string_equality() {
    let out = run_ok(
        r#"1 if 2 = "v""#,
        &["a v", "b vv", "c V", "d v"],
        true,
        false,
        false,
    );
    assert_eq!(out, lines(&["a", "d"]));
}

#[test]
fn and_binds_tighter_than_or() {
    // A = "1" or (B = "2" and C = "3"): the first row passes through the
    // `or` branch alone; under the other grouping it would be dropped.
    let out = run_ok(
        r#"1 if A = "1" or B = "2" and C = "3""#,
        &["A B C", "1 0 0", "0 2 3", "0 2 0"],
        false,
        false,
        false,
    );
    assert_eq!(out, lines(&["1", "0"]));
}

#[test]
fn table_style_pads_to_column_widths() {
    let out = run_ok("1 2", &["AA b", "c DD"], true, false, false);
    assert_eq!(out, lines(&["AA b", "c  DD"]));
}

#[test]
fn simple_style_joins_with_single_spaces() {
    let out = run("1 2", lines(&["AA b", "c DD"]), true, false, false, true).unwrap();
    assert_eq!(out, lines(&["AA b", "c DD"]));
}

#[test]
fn short_lines_give_empty_trimmed_fields() {
    let out = run_ok("2", &["AB  X", "CD"], false, false, false);
    assert_eq!(out, lines(&["X", ""]));
}

#[test]
fn adaptive_split_keeps_cell_spaces_narrower_than_separator() {
    let mut sp = Splitter::from_cli_and_lines(
        false,
        lines(&["aa bb   cc", "x y     z"]),
    );
    assert_eq!(sp.next().unwrap(), lines(&["aa bb", "cc"]));
    assert_eq!(sp.next().unwrap(), lines(&["x y", "z"]));
    assert_eq!(sp.next(), None);
}

#[test]
fn boundary_inference_steps_match_by_hand() {
    let batch = lines(&["aa bb   cc", "x y     z"]);
    let icw = Splitter::get_is_column_whitespace_vec(&batch);
    assert_eq!(
        icw,
        vec![false, false, false, false, false, true, true, true, false, false]
    );
    let wp = Splitter::get_whitespace_prefix_vec(&icw);
    assert_eq!(wp, vec![0, 0, 0, 0, 0, 1, 2, 3, 0, 0]);
    let ranges = Splitter::count_column_ranges(&batch);
    assert_eq!(ranges, vec![(0, 5), (8, 10)]);
}

#[test]
fn splitter_trims_fields() {
    let mut sp = Splitter::from_cli_and_lines(false, lines(&["a    ", "bb cc"]));
    assert_eq!(sp.next().unwrap(), lines(&["a", ""]));
    assert_eq!(sp.next().unwrap(), lines(&["bb", "cc"]));
}

#[test]
fn entirely_blank_sample_yields_zero_ranges() {
    let mut sp = Splitter::from_cli_and_lines(false, lines(&["   ", " "]));
    assert_eq!(sp.next().unwrap(), Vec::<String>::new());
    assert_eq!(sp.next().unwrap(), Vec::<String>::new());
    let err = run("1", lines(&["   "]), false, false, false, false).unwrap_err();
    match err {
        MainError::LineProcessError(LineProcessError::ColumnOutOfRangeError(e)) => {
            assert_eq!(e.col_num, 1);
            assert_eq!(e.col_count, 0);
        }
        _ => panic!("expected a column-out-of-range error"),
    }
}

#[test]
fn header_flag_redundant_for_named_queries() {
    let input = ["A B C", "1 2 3", "4 5 6"];
    let with_flag = run("B A", lines(&input), false, true, false, false).unwrap();
    let without = run("B A", lines(&input), false, false, false, false).unwrap();
    assert_eq!(with_flag, without);
}

#[test]
fn condition_check_compares_fields_and_literals() {
    let row = lines(&["u", "v"]);
    let expr = ConditionExpr::Condition(EqCondition(
        ConditionOperand::ColumnId(1),
        ConditionOperand::Const("v".to_string()),
    ));
    assert!(expr.check(&row));
    let expr2 = ConditionExpr::And(
        Box::new(expr),
        Box::new(ConditionExpr::Condition(EqCondition(
            ConditionOperand::ColumnId(0),
            ConditionOperand::Const("w".to_string()),
        ))),
    );
    assert!(!expr2.check(&row));
}

#[test]
fn process_line_projects_in_selection_order() {
    let row = lines(&["a", "b", "c"]);
    let ans = parse("3 1 3", &row).unwrap();
    assert!(!ans.is_header_required);
    let got = ans.query.process_line(&row).unwrap().unwrap();
    assert_eq!(got, lines(&["c", "a", "c"]));
}

#[test]
fn process_line_no_check_ignores_the_filter() {
    let row = lines(&["a", "b"]);
    let ans = parse(r#"2 if 1 = "zzz""#, &row).unwrap();
    assert_eq!(ans.query.process_line(&row).unwrap(), None);
    assert_eq!(ans.query.process_line_no_check(&row).unwrap(), lines(&["b"]));
}

#[test]
fn numeric_queries_never_touch_the_header() {
    let with_dups = lines(&["X X X"]);
    let ans = parse("2", &with_dups).unwrap();
    assert!(!ans.is_header_required);
    assert_eq!(ans.query.column_ids, vec![1]);
}

#[test]
fn name_reference_anywhere_requires_the_header() {
    let ans = parse(r#"1 if B = "x""#, &lines(&["A", "B"])).unwrap();
    assert!(ans.is_header_required);
}

#[test]
fn query_without_if_clause_keeps_every_row() {
    let out = run_ok("1", &["a", "b", "c"], true, false, false);
    assert_eq!(out, lines(&["a", "b", "c"]));
}

#[test]
fn keywords_by_symbol_and_word_agree() {
    let input = ["A B", "1 2", "3 4"];
    let word = run_ok(r#"1 if A = "1" or B = "4""#, &input, false, false, false);
    let sym = run_ok(r#"1 if A = "1" | B = "4""#, &input, false, false, false);
    assert_eq!(word, sym);
    assert_eq!(word, lines(&["1", "3"]));
}

#[test]
fn header_row_projected_when_printing_is_asked() {
    let out = run("NAME", lines(&["ID NAME", "1 w"]), true, false, true, false).unwrap();
    assert_eq!(out, lines(&["NAME", "w"]));
}

#[test]
fn query_fields_are_public_and_reusable() {
    let q = Query {
        column_ids: vec![0],
        cond_expr: ConditionExpr::True(tx::condition::TrueCondition),
    };
    let got = q.process_line(&lines(&["only"])).unwrap().unwrap();
    assert_eq!(got, lines(&["only"]));
}
