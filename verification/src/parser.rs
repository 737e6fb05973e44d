//! The query compiler: parse a query string against the grammar, resolve
//! every column reference to a zero-based index — ordinals directly, names
//! against the first input row — and emit the executable query together with
//! a flag saying whether the first row was consumed as a header.
//!
//! Name resolution is error-checked: a duplicate name in the header row fails
//! compilation identifying both positions, an unknown name fails naming it,
//! and a non-positive (or unrepresentable) ordinal fails naming its text.
//! All failures are structured values; nothing here panics.

use vstd::prelude::*;

use crate::condition::{
    expr_in_range, ConditionExpr, ConditionOperand, EqCondition, SpecCondExpr, SpecOperand,
    TrueCondition,
};
use crate::grammar::{
    is_digit, is_digit_char, parse_query, spec_parse_query, spec_tokenize, tokenize, RawCondExpr,
    RawOperand, RawQuery, RawSelector, SpecRawExpr, SpecRawOperand, SpecRawQuery, SpecSelector,
};
use crate::query::{selection_in_range, Query};
use crate::text::str_chars;

verus! {

/// The numeric value of a digit character.
pub open spec fn char_digit(c: char) -> int {
    c as u32 - 0x30
}

/// The value of a numeral, read in base ten; a negative answer marks text
/// that is not a run of digits.
pub open spec fn digits_val(d: Seq<char>) -> int
    decreases d.len(),
{
    if d.len() == 0 {
        0
    } else {
        let rest = digits_val(d.drop_last());
        if rest < 0 || !is_digit_char(d.last()) {
            -1
        } else {
            rest * 10 + char_digit(d.last())
        }
    }
}

/// Reading further digits never shrinks a numeral's value, and never mends
/// text that already failed to be a numeral.
proof fn lemma_digits_val_extend(d: Seq<char>, k: int)
    requires
        0 <= k <= d.len(),
    ensures
        digits_val(d.take(k)) < 0 ==> digits_val(d) < 0,
        digits_val(d.take(k)) >= 0 ==> digits_val(d) < 0 || digits_val(d) >= digits_val(d.take(k)),
    decreases d.len() - k,
{
    if k < d.len() {
        assert(d.take(k + 1).drop_last() =~= d.take(k));
        lemma_digits_val_extend(d, k + 1);
    } else {
        assert(d.take(k) =~= d);
    }
}

/// Convert a numeral to the zero-based index of the 1-based column it names:
/// nothing when the text is no digit run, is zero, or does not fit.
fn digits_index(text: &String) -> (r: Option<usize>)
    ensures
        match r {
            Some(id) => 1 <= digits_val(text@) <= usize::MAX as int && id as int == digits_val(
                text@,
            ) - 1,
            None => !(1 <= digits_val(text@) <= usize::MAX as int),
        },
{
    let cv = str_chars(text.as_str());
    let n = cv.len();
    let mut acc: usize = 0;
    let mut k: usize = 0;
    proof {
        assert(text@.take(0) =~= Seq::<char>::empty());
    }
    while k < n
        invariant
            k <= n,
            n == text@.len(),
            cv@ == text@,
            acc as int == digits_val(text@.take(k as int)),
        decreases n - k,
    {
        let c = cv[k];
        proof {
            assert(text@.take(k as int + 1).drop_last() =~= text@.take(k as int));
            assert(text@.take(k as int + 1).last() == text@[k as int]);
        }
        if !is_digit(c) {
            proof {
                lemma_digits_val_extend(text@, k as int + 1);
            }
            return None;
        }
        let d = (c as u32 - 0x30) as usize;
        let next = match acc.checked_mul(10) {
            Some(m) => m.checked_add(d),
            None => None,
        };
        match next {
            Some(v) => {
                acc = v;
            },
            None => {
                proof {
                    lemma_digits_val_extend(text@, k as int + 1);
                }
                return None;
            },
        }
        k = k + 1;
    }
    proof {
        assert(text@.take(n as int) =~= text@);
    }
    if acc == 0 {
        None
    } else {
        Some(acc - 1)
    }
}

/// The least index at which `name` occurs in the row; meaningful only when it
/// occurs at all.
pub open spec fn first_index_of(row: Seq<Seq<char>>, name: Seq<char>) -> int
    decreases row.len(),
{
    if row.len() == 0 {
        0
    } else if row[0] == name {
        0
    } else {
        1 + first_index_of(row.drop_first(), name)
    }
}

proof fn lemma_first_index_of(row: Seq<Seq<char>>, name: Seq<char>)
    requires
        exists|k: int| 0 <= k < row.len() && row[k] == name,
    ensures
        0 <= first_index_of(row, name) < row.len(),
        row[first_index_of(row, name)] == name,
        forall|k: int| 0 <= k < first_index_of(row, name) ==> row[k] != name,
    decreases row.len(),
{
    if row.len() > 0 && row[0] != name {
        let k = choose|k: int| 0 <= k < row.len() && row[k] == name;
        assert(row.drop_first()[k - 1] == row[k]);
        lemma_first_index_of(row.drop_first(), name);
        assert forall|m: int| 0 <= m < first_index_of(row, name) implies row[m] != name by {
            if m > 0 {
                assert(row.drop_first()[m - 1] == row[m]);
            }
        }
    }
}

/// The first pair of equal header cells, in the order the header map is
/// built: the least second position whose name occurred before, paired with
/// that name's first position.
pub open spec fn spec_first_dup(row: Seq<Seq<char>>, j: int) -> Option<(int, int)>
    decreases row.len() - j,
{
    if j < 0 || j >= row.len() {
        None
    } else if exists|i: int| 0 <= i < j && row[i] == row[j] {
        Some((first_index_of(row, row[j]), j))
    } else {
        spec_first_dup(row, j + 1)
    }
}

/// A failure of column resolution, over mathematical text.
pub enum SpecResolveError {
    SameColumnNames { first: int, second: int, name: Seq<char> },
    ColumnNotFound { name: Seq<char> },
    InvalidColumnNumber { text: Seq<char> },
}

/// Resolve a header name against the first row: a duplicate anywhere in the
/// header takes priority, then the name must occur, and it resolves to its
/// first position.
pub open spec fn spec_resolve_name(row: Seq<Seq<char>>, name: Seq<char>) -> Result<
    usize,
    SpecResolveError,
> {
    match spec_first_dup(row, 0) {
        Some(p) => Err(
            SpecResolveError::SameColumnNames { first: p.0, second: p.1, name: row[p.1] },
        ),
        None => if exists|k: int| 0 <= k < row.len() && row[k] == name {
            Ok(first_index_of(row, name) as usize)
        } else {
            Err(SpecResolveError::ColumnNotFound { name })
        },
    }
}

/// Resolve one selector: the ordinal `N` names index `N - 1` and must be
/// positive and representable; a name resolves against the header.
pub open spec fn spec_resolve_selector(s: SpecSelector, row: Seq<Seq<char>>) -> Result<
    usize,
    SpecResolveError,
> {
    match s {
        SpecSelector::Number { text } => {
            let v = digits_val(text);
            if 1 <= v <= usize::MAX as int {
                Ok((v - 1) as usize)
            } else {
                Err(SpecResolveError::InvalidColumnNumber { text })
            }
        },
        SpecSelector::Name { text } => spec_resolve_name(row, text),
    }
}

/// Resolve the selector list left to right; the first failure wins.
pub open spec fn spec_resolve_selectors(
    sels: Seq<SpecSelector>,
    row: Seq<Seq<char>>,
    i: int,
    acc: Seq<usize>,
) -> Result<Seq<usize>, SpecResolveError>
    decreases sels.len() - i,
{
    if i < 0 || i >= sels.len() {
        Ok(acc)
    } else {
        match spec_resolve_selector(sels[i], row) {
            Err(e) => Err(e),
            Ok(id) => spec_resolve_selectors(sels, row, i + 1, acc.push(id)),
        }
    }
}

/// Resolve one operand: a column reference resolves as a selector, a literal
/// stands for itself.
pub open spec fn spec_resolve_operand(o: SpecRawOperand, row: Seq<Seq<char>>) -> Result<
    SpecOperand,
    SpecResolveError,
> {
    match o {
        SpecRawOperand::Column(sel) => match spec_resolve_selector(sel, row) {
            Err(e) => Err(e),
            Ok(id) => Ok(SpecOperand::ColumnId(id)),
        },
        SpecRawOperand::StrLit(t) => Ok(SpecOperand::Const(t)),
    }
}

/// Resolve a filter tree bottom-up, left to right; the first failure wins.
pub open spec fn spec_resolve_expr(e: SpecRawExpr, row: Seq<Seq<char>>) -> Result<
    SpecCondExpr,
    SpecResolveError,
>
    decreases e,
{
    match e {
        SpecRawExpr::Cond(a, b) => match spec_resolve_operand(a, row) {
            Err(err) => Err(err),
            Ok(ra) => match spec_resolve_operand(b, row) {
                Err(err) => Err(err),
                Ok(rb) => Ok(SpecCondExpr::Condition(ra, rb)),
            },
        },
        SpecRawExpr::True => Ok(SpecCondExpr::True),
        SpecRawExpr::And(l, r) => match spec_resolve_expr(*l, row) {
            Err(err) => Err(err),
            Ok(rl) => match spec_resolve_expr(*r, row) {
                Err(err) => Err(err),
                Ok(rr) => Ok(SpecCondExpr::And(Box::new(rl), Box::new(rr))),
            },
        },
        SpecRawExpr::Or(l, r) => match spec_resolve_expr(*l, row) {
            Err(err) => Err(err),
            Ok(rl) => match spec_resolve_expr(*r, row) {
                Err(err) => Err(err),
                Ok(rr) => Ok(SpecCondExpr::Or(Box::new(rl), Box::new(rr))),
            },
        },
    }
}

/// Whether an operand refers to a column by name.
pub open spec fn operand_uses_name(o: SpecRawOperand) -> bool {
    match o {
        SpecRawOperand::Column(s) => s is Name,
        SpecRawOperand::StrLit(_) => false,
    }
}

/// Whether a filter tree refers to any column by name.
pub open spec fn expr_uses_name(e: SpecRawExpr) -> bool
    decreases e,
{
    match e {
        SpecRawExpr::Cond(a, b) => operand_uses_name(a) || operand_uses_name(b),
        SpecRawExpr::True => false,
        SpecRawExpr::And(l, r) => expr_uses_name(*l) || expr_uses_name(*r),
        SpecRawExpr::Or(l, r) => expr_uses_name(*l) || expr_uses_name(*r),
    }
}

/// Whether a query refers to any column by name; exactly then is the first
/// row consumed as a header.
pub open spec fn spec_uses_name(q: SpecRawQuery) -> bool {
    (exists|i: int| 0 <= i < q.selectors.len() && q.selectors[i] is Name) || expr_uses_name(q.cond)
}

/// What compiling a query against a first row yields: a syntax error at a
/// character position, a resolution error, or the resolved selection, filter,
/// and header flag.
pub enum SpecParseResult {
    Syntax(int),
    Resolve(SpecResolveError),
    Done { column_ids: Seq<usize>, cond: SpecCondExpr, header_required: bool },
}

/// The meaning of query compilation.
pub open spec fn spec_parse_result(q: Seq<char>, row: Seq<Seq<char>>) -> SpecParseResult {
    match spec_tokenize(q) {
        Err(p) => SpecParseResult::Syntax(p),
        Ok(tv) => match spec_parse_query(tv, q.len() as int) {
            Err(p) => SpecParseResult::Syntax(p),
            Ok(rq) => match spec_resolve_selectors(rq.selectors, row, 0, Seq::empty()) {
                Err(e) => SpecParseResult::Resolve(e),
                Ok(ids) => match spec_resolve_expr(rq.cond, row) {
                    Err(e) => SpecParseResult::Resolve(e),
                    Ok(ce) => SpecParseResult::Done {
                        column_ids: ids,
                        cond: ce,
                        header_required: spec_uses_name(rq),
                    },
                },
            },
        },
    }
}

/// The query string is grammatical and refers to no column by name.
pub open spec fn query_parses_without_names(q: Seq<char>) -> bool {
    match spec_tokenize(q) {
        Ok(tv) => match spec_parse_query(tv, q.len() as int) {
            Ok(rq) => !spec_uses_name(rq),
            Err(_) => false,
        },
        Err(_) => false,
    }
}

proof fn lemma_resolve_selectors_row_independent(
    sels: Seq<SpecSelector>,
    row1: Seq<Seq<char>>,
    row2: Seq<Seq<char>>,
    i: int,
    acc: Seq<usize>,
)
    requires
        forall|k: int| 0 <= k < sels.len() ==> !((#[trigger] sels[k]) is Name),
    ensures
        spec_resolve_selectors(sels, row1, i, acc) == spec_resolve_selectors(sels, row2, i, acc),
    decreases sels.len() - i,
{
    if 0 <= i < sels.len() {
        match spec_resolve_selector(sels[i], row1) {
            Ok(id) => {
                lemma_resolve_selectors_row_independent(sels, row1, row2, i + 1, acc.push(id));
            },
            Err(_) => {},
        }
    }
}

proof fn lemma_resolve_expr_row_independent(
    e: SpecRawExpr,
    row1: Seq<Seq<char>>,
    row2: Seq<Seq<char>>,
)
    requires
        !expr_uses_name(e),
    ensures
        spec_resolve_expr(e, row1) == spec_resolve_expr(e, row2),
    decreases e,
{
    match e {
        SpecRawExpr::And(l, r) => {
            lemma_resolve_expr_row_independent(*l, row1, row2);
            lemma_resolve_expr_row_independent(*r, row1, row2);
        },
        SpecRawExpr::Or(l, r) => {
            lemma_resolve_expr_row_independent(*l, row1, row2);
            lemma_resolve_expr_row_independent(*r, row1, row2);
        },
        _ => {},
    }
}

/// Law: a query whose column references are all numeric never resolves
/// against the first row. Compiling it yields the same outcome against any
/// two rows, and never requires a header.
pub proof fn lemma_numeric_query_ignores_first_row(
    q: Seq<char>,
    row1: Seq<Seq<char>>,
    row2: Seq<Seq<char>>,
)
    requires
        query_parses_without_names(q),
    ensures
        spec_parse_result(q, row1) == spec_parse_result(q, row2),
        spec_parse_result(q, row1) matches SpecParseResult::Done { header_required, .. }
            ==> !header_required,
{
    let tv = spec_tokenize(q)->Ok_0;
    let rq = spec_parse_query(tv, q.len() as int)->Ok_0;
    assert(forall|k: int| 0 <= k < rq.selectors.len() ==> !((#[trigger] rq.selectors[k]) is Name));
    lemma_resolve_selectors_row_independent(rq.selectors, row1, row2, 0, Seq::empty());
    lemma_resolve_expr_row_independent(rq.cond, row1, row2);
}

/// The first duplicate pair is a duplicate, is the earliest one, and pairs a
/// name's first occurrence with its first repetition; and there is none
/// exactly when the cells from `j` on repeat nothing.
proof fn lemma_first_dup_props(row: Seq<Seq<char>>, j: int)
    requires
        0 <= j <= row.len(),
    ensures
        match spec_first_dup(row, j) {
            None => forall|i2: int, j2: int|
                0 <= i2 < j2 < row.len() && j <= j2 ==> row[i2] != row[j2],
            Some(p) => 0 <= p.0 < p.1 < row.len() && j <= p.1 && row[p.0] == row[p.1] && (
            forall|i2: int, j2: int| 0 <= i2 < j2 && j <= j2 < p.1 ==> row[i2] != row[j2]) && (
            forall|i2: int| 0 <= i2 < p.0 ==> (#[trigger] row[i2]) != row[p.1]),
        },
    decreases row.len() - j,
{
    if j < row.len() {
        if exists|i: int| 0 <= i < j && row[i] == row[j] {
            let i = choose|i: int| 0 <= i < j && row[i] == row[j];
            lemma_first_index_of(row, row[j]);
        } else {
            lemma_first_dup_props(row, j + 1);
        }
    }
}

/// Law: with a duplicate name anywhere in the header row, resolving any name
/// whatsoever fails, identifying the earliest repeated position and, with it,
/// the first occurrence of its name.
pub proof fn lemma_duplicate_header_fails_any_name(row: Seq<Seq<char>>, name: Seq<char>)
    requires
        exists|i: int, j: int| 0 <= i < j < row.len() && row[i] == row[j],
    ensures
        spec_resolve_name(row, name) matches Err(SpecResolveError::SameColumnNames {
            first,
            second,
            name: nm,
        }) && 0 <= first < second < row.len() && row[first] == row[second] && nm == row[second] && (
        forall|i2: int, j2: int| 0 <= i2 < j2 < second ==> row[i2] != row[j2]) && (forall|i2: int|
            0 <= i2 < first ==> (#[trigger] row[i2]) != row[second]),
{
    lemma_first_dup_props(row, 0);
    if spec_first_dup(row, 0) is None {
        let (i, j) = choose|i: int, j: int| 0 <= i < j < row.len() && row[i] == row[j];
        assert(false);
    }
}

proof fn lemma_resolve_selectors_ok_no_names(
    sels: Seq<SpecSelector>,
    row: Seq<Seq<char>>,
    i: int,
    acc: Seq<usize>,
)
    requires
        0 <= i,
        exists|a: int, b: int| 0 <= a < b < row.len() && row[a] == row[b],
        spec_resolve_selectors(sels, row, i, acc) is Ok,
    ensures
        forall|k: int| i <= k < sels.len() ==> !((#[trigger] sels[k]) is Name),
    decreases sels.len() - i,
{
    if 0 <= i < sels.len() {
        if sels[i] is Name {
            lemma_duplicate_header_fails_any_name(row, sels[i]->Name_text);
            assert(spec_resolve_selector(sels[i], row) is Err);
            assert(false);
        } else {
            match spec_resolve_selector(sels[i], row) {
                Ok(id) => {
                    lemma_resolve_selectors_ok_no_names(sels, row, i + 1, acc.push(id));
                },
                Err(_) => {},
            }
        }
    }
}

proof fn lemma_resolve_expr_ok_no_names(e: SpecRawExpr, row: Seq<Seq<char>>)
    requires
        exists|a: int, b: int| 0 <= a < b < row.len() && row[a] == row[b],
        spec_resolve_expr(e, row) is Ok,
    ensures
        !expr_uses_name(e),
    decreases e,
{
    match e {
        SpecRawExpr::Cond(a, b) => {
            if operand_uses_name(a) {
                lemma_duplicate_header_fails_any_name(row, a->Column_0->Name_text);
            }
            if operand_uses_name(b) {
                lemma_duplicate_header_fails_any_name(row, b->Column_0->Name_text);
            }
        },
        SpecRawExpr::True => {},
        SpecRawExpr::And(l, r) => {
            lemma_resolve_expr_ok_no_names(*l, row);
            lemma_resolve_expr_ok_no_names(*r, row);
        },
        SpecRawExpr::Or(l, r) => {
            lemma_resolve_expr_ok_no_names(*l, row);
            lemma_resolve_expr_ok_no_names(*r, row);
        },
    }
}

/// Law: a duplicate header name always fails compilation of a query that
/// refers to any column by name, whatever the query's content otherwise; with
/// `lemma_duplicate_header_fails_any_name` saying which two positions every
/// name resolution then reports.
pub proof fn lemma_duplicate_header_fails_compilation(q: Seq<char>, row: Seq<Seq<char>>)
    requires
        exists|a: int, b: int| 0 <= a < b < row.len() && row[a] == row[b],
        ({
            &&& spec_tokenize(q) matches Ok(tv)
            &&& spec_parse_query(tv, q.len() as int) matches Ok(rq) && spec_uses_name(rq)
        }),
    ensures
        !(spec_parse_result(q, row) is Done),
{
    let tv = spec_tokenize(q)->Ok_0;
    let rq = spec_parse_query(tv, q.len() as int)->Ok_0;
    if spec_parse_result(q, row) is Done {
        lemma_resolve_selectors_ok_no_names(rq.selectors, row, 0, Seq::empty());
        lemma_resolve_expr_ok_no_names(rq.cond, row);
        assert(!spec_uses_name(rq));
    }
}

/// The query string broke the grammar; `position` is the character at fault
/// (the string's length when it ended too soon), `query` the text itself.
#[derive(Debug)]
pub struct SyntaxError {
    pub position: usize,
    pub query: String,
}

/// Two header cells carry the same name; both zero-based positions and the
/// name itself.
#[derive(Debug)]
pub struct SameColumnNamesError {
    pub first_column_id: usize,
    pub second_column_id: usize,
    pub column_name: String,
}

/// A name the header row does not contain.
#[derive(Debug)]
pub struct ColumnNotFoundError {
    pub column_name: String,
}

/// A numeric column reference that is no valid 1-based ordinal: zero, or too
/// large to address anything.
#[derive(Debug)]
pub struct InvalidColumnNumberError {
    pub column_number: String,
}

/// A failure of query compilation.
#[derive(Debug)]
pub enum ParseError {
    SyntaxError(SyntaxError),
    SameColumnNamesError(SameColumnNamesError),
    ColumnNotFoundError(ColumnNotFoundError),
    InvalidColumnNumberError(InvalidColumnNumberError),
}

/// The executable error that renders one resolution failure.
pub open spec fn resolve_err_matches(e: ParseError, se: SpecResolveError) -> bool {
    match (e, se) {
        (
            ParseError::SameColumnNamesError(x),
            SpecResolveError::SameColumnNames { first, second, name },
        ) => x.first_column_id as int == first && x.second_column_id as int == second
            && x.column_name@ == name,
        (ParseError::ColumnNotFoundError(x), SpecResolveError::ColumnNotFound { name }) =>
            x.column_name@ == name,
        (
            ParseError::InvalidColumnNumberError(x),
            SpecResolveError::InvalidColumnNumber { text },
        ) => x.column_number@ == text,
        _ => false,
    }
}

/// The executable error that renders one compilation failure; never a
/// successful outcome.
pub open spec fn parse_err_matches(e: ParseError, pr: SpecParseResult, q: Seq<char>) -> bool {
    match pr {
        SpecParseResult::Syntax(p) => e matches ParseError::SyntaxError(se) && se.position as int
            == p && se.query@ == q,
        SpecParseResult::Resolve(re) => resolve_err_matches(e, re),
        SpecParseResult::Done { .. } => false,
    }
}

/// The first pair of equal cells of the row, if any, in header-map build
/// order.
fn find_duplicate(row: &Vec<String>) -> (r: Option<(usize, usize)>)
    ensures
        match r {
            Some(p) => Some((p.0 as int, p.1 as int)) == spec_first_dup(row.deep_view(), 0)
                && p.1 < row@.len(),
            None => spec_first_dup(row.deep_view(), 0) is None,
        },
{
    let ghost rd = row.deep_view();
    proof {
        assert(rd.len() == row@.len());
    }
    let mut j: usize = 0;
    while j < row.len()
        invariant
            j <= row@.len(),
            rd == row.deep_view(),
            rd.len() == row@.len(),
            spec_first_dup(rd, 0) == spec_first_dup(rd, j as int),
        decreases row@.len() - j,
    {
        let mut i: usize = 0;
        while i < j
            invariant
                i <= j < row@.len(),
                rd == row.deep_view(),
                rd.len() == row@.len(),
                spec_first_dup(rd, 0) == spec_first_dup(rd, j as int),
                forall|k: int| 0 <= k < i ==> rd[k] != rd[j as int],
            decreases j - i,
        {
            if row[i].eq(&row[j]) {
                proof {
                    assert(rd[i as int] == row@[i as int]@);
                    assert(rd[j as int] == row@[j as int]@);
                    assert(rd[i as int] == rd[j as int]);
                    lemma_first_index_of(rd, rd[j as int]);
                    assert(first_index_of(rd, rd[j as int]) == i as int);
                }
                return Some((i, j));
            }
            i = i + 1;
        }
        j = j + 1;
    }
    None
}

/// The first position of `name` in the row, if it occurs.
fn find_name(row: &Vec<String>, name: &String) -> (r: Option<usize>)
    ensures
        match r {
            Some(k) => (exists|m: int| 0 <= m < row.deep_view().len() && row.deep_view()[m]
                == name@) && k as int == first_index_of(row.deep_view(), name@) && k < row@.len(),
            None => !(exists|m: int|
                0 <= m < row.deep_view().len() && row.deep_view()[m] == name@),
        },
{
    let ghost rd = row.deep_view();
    proof {
        assert(rd.len() == row@.len());
    }
    let mut k: usize = 0;
    while k < row.len()
        invariant
            k <= row@.len(),
            rd == row.deep_view(),
            rd.len() == row@.len(),
            forall|m: int| 0 <= m < k ==> rd[m] != name@,
        decreases row@.len() - k,
    {
        if row[k].eq(name) {
            proof {
                assert(rd[k as int] == row@[k as int]@);
                assert(rd[k as int] == name@);
                lemma_first_index_of(rd, name@);
            }
            return Some(k);
        }
        k = k + 1;
    }
    None
}

/// Resolve a header name against the first row, rendering failures as
/// structured errors.
fn resolve_name(row: &Vec<String>, name: &String) -> (r: Result<usize, ParseError>)
    ensures
        match spec_resolve_name(row.deep_view(), name@) {
            Ok(id) => r matches Ok(u) && u == id && u < row@.len(),
            Err(se) => r matches Err(e) && resolve_err_matches(e, se),
        },
{
    match find_duplicate(row) {
        Some((i, j)) => Err(
            ParseError::SameColumnNamesError(
                SameColumnNamesError {
                    first_column_id: i,
                    second_column_id: j,
                    column_name: row[j].clone(),
                },
            ),
        ),
        None => match find_name(row, name) {
            Some(k) => Ok(k),
            None => Err(
                ParseError::ColumnNotFoundError(
                    ColumnNotFoundError { column_name: name.clone() },
                ),
            ),
        },
    }
}

/// Resolve one selector to its zero-based column index.
fn resolve_selector(sel: &RawSelector, row: &Vec<String>) -> (r: Result<usize, ParseError>)
    ensures
        match spec_resolve_selector(sel@, row.deep_view()) {
            Ok(id) => r matches Ok(u) && u == id && u < usize::MAX,
            Err(se) => r matches Err(e) && resolve_err_matches(e, se),
        },
{
    match sel {
        RawSelector::Number { text } => match digits_index(text) {
            Some(id) => Ok(id),
            None => Err(
                ParseError::InvalidColumnNumberError(
                    InvalidColumnNumberError { column_number: text.clone() },
                ),
            ),
        },
        RawSelector::Name { text } => {
            let width = row.len();
            proof {
                assert(row@.len() == width);
            }
            resolve_name(row, text)
        },
    }
}

/// Resolve the whole selector list, left to right.
fn resolve_selectors(sels: &Vec<RawSelector>, row: &Vec<String>) -> (r: Result<
    Vec<usize>,
    ParseError,
>)
    ensures
        ({
            let sv = crate::grammar::selectors_view(sels@);
            match spec_resolve_selectors(sv, row.deep_view(), 0, Seq::empty()) {
                Ok(ids) => r matches Ok(v) && v@ == ids && selection_in_range(
                    v@,
                    usize::MAX as nat,
                ),
                Err(se) => r matches Err(e) && resolve_err_matches(e, se),
            }
        }),
{
    let ghost sv = crate::grammar::selectors_view(sels@);
    let ghost rd = row.deep_view();
    let mut ids: Vec<usize> = Vec::new();
    let mut i: usize = 0;
    proof {
        assert(ids@ =~= Seq::<usize>::empty());
    }
    while i < sels.len()
        invariant
            i <= sels@.len(),
            sv == crate::grammar::selectors_view(sels@),
            sv.len() == sels@.len(),
            rd == row.deep_view(),
            selection_in_range(ids@, usize::MAX as nat),
            spec_resolve_selectors(sv, rd, 0, Seq::empty()) == spec_resolve_selectors(
                sv,
                rd,
                i as int,
                ids@,
            ),
        decreases sels@.len() - i,
    {
        match resolve_selector(&sels[i], row) {
            Ok(id) => {
                let ghost prev = ids@;
                ids.push(id);
                proof {
                    assert(ids@ =~= prev.push(id));
                }
            },
            Err(e) => {
                return Err(e);
            },
        }
        i = i + 1;
    }
    Ok(ids)
}

/// Resolve one operand of an equality test.
fn resolve_operand(o: &RawOperand, row: &Vec<String>) -> (r: Result<ConditionOperand, ParseError>)
    ensures
        match spec_resolve_operand(o@, row.deep_view()) {
            Ok(so) => r matches Ok(co) && co@ == so && crate::condition::operand_in_range(
                co@,
                usize::MAX as nat,
            ),
            Err(se) => r matches Err(e) && resolve_err_matches(e, se),
        },
{
    match o {
        RawOperand::Column(sel) => match resolve_selector(sel, row) {
            Ok(id) => Ok(ConditionOperand::ColumnId(id)),
            Err(e) => Err(e),
        },
        RawOperand::StrLit(t) => Ok(ConditionOperand::Const(t.clone())),
    }
}

/// Resolve a filter tree bottom-up, left to right.
fn resolve_expr(e: &RawCondExpr, row: &Vec<String>) -> (r: Result<ConditionExpr, ParseError>)
    ensures
        match spec_resolve_expr(e@, row.deep_view()) {
            Ok(se) => r matches Ok(ce) && ce@ == se && expr_in_range(ce@, usize::MAX as nat),
            Err(serr) => r matches Err(err) && resolve_err_matches(err, serr),
        },
    decreases e,
{
    match e {
        RawCondExpr::Cond(a, b) => {
            let ra = match resolve_operand(a, row) {
                Ok(x) => x,
                Err(err) => {
                    return Err(err);
                },
            };
            let rb = match resolve_operand(b, row) {
                Ok(x) => x,
                Err(err) => {
                    return Err(err);
                },
            };
            Ok(ConditionExpr::Condition(EqCondition(ra, rb)))
        },
        RawCondExpr::True => Ok(ConditionExpr::True(TrueCondition)),
        RawCondExpr::And(l, r) => {
            let rl = match resolve_expr(l, row) {
                Ok(x) => x,
                Err(err) => {
                    return Err(err);
                },
            };
            let rr = match resolve_expr(r, row) {
                Ok(x) => x,
                Err(err) => {
                    return Err(err);
                },
            };
            Ok(ConditionExpr::And(Box::new(rl), Box::new(rr)))
        },
        RawCondExpr::Or(l, r) => {
            let rl = match resolve_expr(l, row) {
                Ok(x) => x,
                Err(err) => {
                    return Err(err);
                },
            };
            let rr = match resolve_expr(r, row) {
                Ok(x) => x,
                Err(err) => {
                    return Err(err);
                },
            };
            Ok(ConditionExpr::Or(Box::new(rl), Box::new(rr)))
        },
    }
}

/// Whether the parsed query refers to any column by name.
fn uses_name(q: &RawQuery) -> (r: bool)
    ensures
        r == spec_uses_name(q@),
{
    let mut i: usize = 0;
    while i < q.selectors.len()
        invariant
            i <= q.selectors@.len(),
            forall|k: int|
                0 <= k < i ==> !(crate::grammar::selectors_view(q.selectors@)[k] is Name),
        decreases q.selectors@.len() - i,
    {
        if matches!(&q.selectors[i], RawSelector::Name { .. }) {
            proof {
                assert(crate::grammar::selectors_view(q.selectors@)[i as int] is Name);
            }
            return true;
        }
        i = i + 1;
    }
    expr_uses_name_exec(&q.cond)
}

fn expr_uses_name_exec(e: &RawCondExpr) -> (r: bool)
    ensures
        r == expr_uses_name(e@),
    decreases e,
{
    match e {
        RawCondExpr::Cond(a, b) => {
            let ua = matches!(a, RawOperand::Column(RawSelector::Name { .. }));
            let ub = matches!(b, RawOperand::Column(RawSelector::Name { .. }));
            ua || ub
        },
        RawCondExpr::True => false,
        RawCondExpr::And(l, r) => expr_uses_name_exec(l) || expr_uses_name_exec(r),
        RawCondExpr::Or(l, r) => expr_uses_name_exec(l) || expr_uses_name_exec(r),
    }
}

/// A compiled query, and whether compiling it consumed the first row as a
/// header.
#[derive(Debug)]
pub struct QueryParseAns {
    pub is_header_required: bool,
    pub query: Query,
}

/// Compile a query string against the first input row. On success the answer
/// holds the resolved selection and filter; every failure is the structured
/// error `spec_parse_result` assigns to the input, and nothing is resolved
/// against the row unless a name reference forces it.
pub fn parse(query_string: &str, first_row: &Vec<String>) -> (r: Result<QueryParseAns, ParseError>)
    ensures
        match spec_parse_result(query_string@, first_row.deep_view()) {
            SpecParseResult::Syntax(p) => r matches Err(ParseError::SyntaxError(e)) && e.position
                as int == p && e.query@ == query_string@,
            SpecParseResult::Resolve(se) => r matches Err(e) && resolve_err_matches(e, se),
            SpecParseResult::Done { column_ids, cond, header_required } => r matches Ok(ans)
                && ans.query.column_ids@ == column_ids && ans.query.cond_expr@ == cond
                && ans.is_header_required == header_required && selection_in_range(
                ans.query.column_ids@,
                usize::MAX as nat,
            ) && expr_in_range(ans.query.cond_expr@, usize::MAX as nat),
        },
{
    let n = query_string.unicode_len();
    let tokens = match tokenize(query_string) {
        Ok(ts) => ts,
        Err(p) => {
            return Err(
                ParseError::SyntaxError(
                    SyntaxError { position: p, query: query_string.to_owned() },
                ),
            );
        },
    };
    let raw = match parse_query(&tokens, n) {
        Ok(q) => q,
        Err(p) => {
            return Err(
                ParseError::SyntaxError(
                    SyntaxError { position: p, query: query_string.to_owned() },
                ),
            );
        },
    };
    let column_ids = match resolve_selectors(&raw.selectors, first_row) {
        Ok(ids) => ids,
        Err(e) => {
            return Err(e);
        },
    };
    let cond_expr = match resolve_expr(&raw.cond, first_row) {
        Ok(ce) => ce,
        Err(e) => {
            return Err(e);
        },
    };
    let is_header_required = uses_name(&raw);
    Ok(QueryParseAns { is_header_required, query: Query { column_ids, cond_expr } })
}

} // verus!
