//! The lexical grammar of a query string.
//!
//! Tokens: a run of digits (a column ordinal), a bare word (a column name, or
//! one of the keywords `if`, `and`, `or`), a double-quoted literal without
//! escapes, the operators `=`, `&`, `|`, and parentheses. Blank characters
//! separate tokens and are otherwise insignificant. Any other character, or
//! an unterminated literal, is a lexical error at its character position.

use vstd::prelude::*;

use crate::text::{is_space, is_space_char};

verus! {

/// An ASCII decimal digit.
pub open spec fn is_digit_char(c: char) -> bool {
    0x30 <= c as u32 && c as u32 <= 0x39
}

/// Decides `is_digit_char`.
pub fn is_digit(c: char) -> (r: bool)
    ensures
        r == is_digit_char(c),
{
    let u = c as u32;
    0x30 <= u && u <= 0x39
}

/// A character that may open a bare word: an ASCII letter or an underscore.
pub open spec fn is_name_start_char(c: char) -> bool {
    (0x41 <= c as u32 && c as u32 <= 0x5A) || (0x61 <= c as u32 && c as u32 <= 0x7A) || c == '_'
}

/// Decides `is_name_start_char`.
pub fn is_name_start(c: char) -> (r: bool)
    ensures
        r == is_name_start_char(c),
{
    let u = c as u32;
    (0x41 <= u && u <= 0x5A) || (0x61 <= u && u <= 0x7A) || u == 0x5F
}

/// A character that may continue a bare word.
pub open spec fn is_name_char(c: char) -> bool {
    is_name_start_char(c) || is_digit_char(c)
}

/// Decides `is_name_char`.
pub fn is_name(c: char) -> (r: bool)
    ensures
        r == is_name_char(c),
{
    is_name_start(c) || is_digit(c)
}

/// The first index at or after `i` that does not hold a digit.
pub open spec fn digits_end(s: Seq<char>, i: int) -> int
    decreases s.len() - i,
{
    if i < 0 || i >= s.len() {
        s.len() as int
    } else if !is_digit_char(s[i]) {
        i
    } else {
        digits_end(s, i + 1)
    }
}

/// The first index at or after `i` that does not hold a word character.
pub open spec fn name_end(s: Seq<char>, i: int) -> int
    decreases s.len() - i,
{
    if i < 0 || i >= s.len() {
        s.len() as int
    } else if !is_name_char(s[i]) {
        i
    } else {
        name_end(s, i + 1)
    }
}

/// The first index at or after `i` holding a double quote, or the length when
/// there is none.
pub open spec fn quote_end(s: Seq<char>, i: int) -> int
    decreases s.len() - i,
{
    if i < 0 || i >= s.len() {
        s.len() as int
    } else if s[i] == '"' {
        i
    } else {
        quote_end(s, i + 1)
    }
}

/// A token of the query language, over mathematical text.
pub enum SpecToken {
    /// A run of digits: a column ordinal.
    Number { text: Seq<char>, pos: int },
    /// A bare word that is no keyword: a column name.
    Word { text: Seq<char>, pos: int },
    /// A quoted literal, quotes stripped.
    StrLit { text: Seq<char>, pos: int },
    /// The keyword `if`.
    KwIf { pos: int },
    /// The keyword `and` or the operator `&`.
    OpAnd { pos: int },
    /// The keyword `or` or the operator `|`.
    OpOr { pos: int },
    /// The operator `=`.
    OpEq { pos: int },
    LParen { pos: int },
    RParen { pos: int },
}

/// The character position a token starts at.
pub open spec fn tok_pos(t: SpecToken) -> int {
    match t {
        SpecToken::Number { pos, .. } => pos,
        SpecToken::Word { pos, .. } => pos,
        SpecToken::StrLit { pos, .. } => pos,
        SpecToken::KwIf { pos } => pos,
        SpecToken::OpAnd { pos } => pos,
        SpecToken::OpOr { pos } => pos,
        SpecToken::OpEq { pos } => pos,
        SpecToken::LParen { pos } => pos,
        SpecToken::RParen { pos } => pos,
    }
}

/// Classify a bare word: the keywords become their tokens, any other word is
/// a column name.
pub open spec fn spec_word_token(t: Seq<char>, p: int) -> SpecToken {
    if t == seq!['i', 'f'] {
        SpecToken::KwIf { pos: p }
    } else if t == seq!['a', 'n', 'd'] {
        SpecToken::OpAnd { pos: p }
    } else if t == seq!['o', 'r'] {
        SpecToken::OpOr { pos: p }
    } else {
        SpecToken::Word { text: t, pos: p }
    }
}

/// A scan index that visibly advances and stays within bounds, so that the
/// recursion below terminates; the scans it guards always advance anyway.
pub open spec fn bump_to(i: int, j: int, n: int) -> int {
    if i < j <= n {
        j
    } else if i + 1 <= n {
        i + 1
    } else {
        n
    }
}

/// The token stream of a query string from position `i` on, appended to
/// `acc`, or the position of the first lexical error.
pub open spec fn spec_tokenize_acc(s: Seq<char>, i: int, acc: Seq<SpecToken>) -> Result<
    Seq<SpecToken>,
    int,
>
    decreases s.len() - i,
{
    let n = s.len() as int;
    if i < 0 || i >= n {
        Ok(acc)
    } else if is_space_char(s[i]) {
        spec_tokenize_acc(s, i + 1, acc)
    } else if is_digit_char(s[i]) {
        let j = bump_to(i, digits_end(s, i), n);
        spec_tokenize_acc(s, j, acc.push(SpecToken::Number { text: s.subrange(i, j), pos: i }))
    } else if is_name_start_char(s[i]) {
        let j = bump_to(i, name_end(s, i), n);
        spec_tokenize_acc(s, j, acc.push(spec_word_token(s.subrange(i, j), i)))
    } else if s[i] == '"' {
        let j = quote_end(s, i + 1);
        if j >= n {
            Err(i)
        } else {
            spec_tokenize_acc(
                s,
                bump_to(i, j + 1, n),
                acc.push(SpecToken::StrLit { text: s.subrange(i + 1, j), pos: i }),
            )
        }
    } else if s[i] == '=' {
        spec_tokenize_acc(s, i + 1, acc.push(SpecToken::OpEq { pos: i }))
    } else if s[i] == '&' {
        spec_tokenize_acc(s, i + 1, acc.push(SpecToken::OpAnd { pos: i }))
    } else if s[i] == '|' {
        spec_tokenize_acc(s, i + 1, acc.push(SpecToken::OpOr { pos: i }))
    } else if s[i] == '(' {
        spec_tokenize_acc(s, i + 1, acc.push(SpecToken::LParen { pos: i }))
    } else if s[i] == ')' {
        spec_tokenize_acc(s, i + 1, acc.push(SpecToken::RParen { pos: i }))
    } else {
        Err(i)
    }
}

/// The token stream of a query string, or the position of the first lexical
/// error.
pub open spec fn spec_tokenize(s: Seq<char>) -> Result<Seq<SpecToken>, int> {
    spec_tokenize_acc(s, 0, Seq::empty())
}

/// A token of the query language, as executed.
pub enum Token {
    Number { text: String, pos: usize },
    Word { text: String, pos: usize },
    StrLit { text: String, pos: usize },
    KwIf { pos: usize },
    OpAnd { pos: usize },
    OpOr { pos: usize },
    OpEq { pos: usize },
    LParen { pos: usize },
    RParen { pos: usize },
}

impl View for Token {
    type V = SpecToken;

    open spec fn view(&self) -> SpecToken {
        match self {
            Token::Number { text, pos } => SpecToken::Number { text: text@, pos: *pos as int },
            Token::Word { text, pos } => SpecToken::Word { text: text@, pos: *pos as int },
            Token::StrLit { text, pos } => SpecToken::StrLit { text: text@, pos: *pos as int },
            Token::KwIf { pos } => SpecToken::KwIf { pos: *pos as int },
            Token::OpAnd { pos } => SpecToken::OpAnd { pos: *pos as int },
            Token::OpOr { pos } => SpecToken::OpOr { pos: *pos as int },
            Token::OpEq { pos } => SpecToken::OpEq { pos: *pos as int },
            Token::LParen { pos } => SpecToken::LParen { pos: *pos as int },
            Token::RParen { pos } => SpecToken::RParen { pos: *pos as int },
        }
    }
}

/// The views of a token vector's elements.
pub open spec fn tokens_view(v: Seq<Token>) -> Seq<SpecToken> {
    v.map_values(|t: Token| t@)
}

/// Cut the query string into tokens, or report the position of the first
/// lexical error.
pub fn tokenize(s: &str) -> (r: Result<Vec<Token>, usize>)
    ensures
        match spec_tokenize(s@) {
            Ok(ts) => r matches Ok(v) && tokens_view(v@) == ts,
            Err(p) => r matches Err(q) && q as int == p,
        },
{
    let n = s.unicode_len();
    let mut acc: Vec<Token> = Vec::new();
    let mut i: usize = 0;
    proof {
        assert(tokens_view(acc@) =~= Seq::<SpecToken>::empty());
    }
    while i < n
        invariant
            i <= n,
            n == s@.len(),
            spec_tokenize(s@) == spec_tokenize_acc(s@, i as int, tokens_view(acc@)),
        decreases n - i,
    {
        let ghost prev = tokens_view(acc@);
        let c = s.get_char(i);
        if is_space(c) {
            i = i + 1;
        } else if is_digit(c) {
            let mut j = i + 1;
            while j < n && is_digit(s.get_char(j))
                invariant
                    i < j <= n,
                    n == s@.len(),
                    digits_end(s@, i as int) == digits_end(s@, j as int),
                decreases n - j,
            {
                j = j + 1;
            }
            proof {
                assert(digits_end(s@, i as int) == j as int);
            }
            acc.push(Token::Number { text: s.substring_char(i, j).to_owned(), pos: i });
            proof {
                assert(tokens_view(acc@) =~= prev.push(
                    SpecToken::Number { text: s@.subrange(i as int, j as int), pos: i as int },
                ));
            }
            i = j;
        } else if is_name_start(c) {
            let mut j = i + 1;
            while j < n && is_name(s.get_char(j))
                invariant
                    i < j <= n,
                    n == s@.len(),
                    name_end(s@, i as int) == name_end(s@, j as int),
                decreases n - j,
            {
                j = j + 1;
            }
            proof {
                assert(name_end(s@, i as int) == j as int);
            }
            let ghost wt = s@.subrange(i as int, j as int);
            let tok: Token = if j - i == 2 && s.get_char(i) == 'i' && s.get_char(i + 1) == 'f' {
                proof {
                    assert(wt =~= seq!['i', 'f']);
                }
                Token::KwIf { pos: i }
            } else if j - i == 3 && s.get_char(i) == 'a' && s.get_char(i + 1) == 'n' && s.get_char(
                i + 2,
            ) == 'd' {
                proof {
                    assert(wt =~= seq!['a', 'n', 'd']);
                }
                Token::OpAnd { pos: i }
            } else if j - i == 2 && s.get_char(i) == 'o' && s.get_char(i + 1) == 'r' {
                proof {
                    assert(wt =~= seq!['o', 'r']);
                }
                Token::OpOr { pos: i }
            } else {
                proof {
                    if wt == seq!['i', 'f'] {
                        assert(wt.len() == 2 && wt[0] == 'i' && wt[1] == 'f');
                        assert(false);
                    }
                    if wt == seq!['a', 'n', 'd'] {
                        assert(wt.len() == 3 && wt[0] == 'a' && wt[1] == 'n' && wt[2] == 'd');
                        assert(false);
                    }
                    if wt == seq!['o', 'r'] {
                        assert(wt.len() == 2 && wt[0] == 'o' && wt[1] == 'r');
                        assert(false);
                    }
                }
                Token::Word { text: s.substring_char(i, j).to_owned(), pos: i }
            };
            acc.push(tok);
            proof {
                assert(tokens_view(acc@) =~= prev.push(spec_word_token(wt, i as int)));
            }
            i = j;
        } else if c == '"' {
            let mut j = i + 1;
            while j < n && s.get_char(j) != '"'
                invariant
                    i < j <= n,
                    n == s@.len(),
                    quote_end(s@, i as int + 1) == quote_end(s@, j as int),
                decreases n - j,
            {
                j = j + 1;
            }
            if j >= n {
                proof {
                    assert(quote_end(s@, i as int + 1) == n as int);
                }
                return Err(i);
            }
            proof {
                assert(quote_end(s@, i as int + 1) == j as int);
            }
            acc.push(Token::StrLit { text: s.substring_char(i + 1, j).to_owned(), pos: i });
            proof {
                assert(tokens_view(acc@) =~= prev.push(
                    SpecToken::StrLit {
                        text: s@.subrange(i as int + 1, j as int),
                        pos: i as int,
                    },
                ));
            }
            i = j + 1;
        } else if c == '=' {
            acc.push(Token::OpEq { pos: i });
            proof {
                assert(tokens_view(acc@) =~= prev.push(SpecToken::OpEq { pos: i as int }));
            }
            i = i + 1;
        } else if c == '&' {
            acc.push(Token::OpAnd { pos: i });
            proof {
                assert(tokens_view(acc@) =~= prev.push(SpecToken::OpAnd { pos: i as int }));
            }
            i = i + 1;
        } else if c == '|' {
            acc.push(Token::OpOr { pos: i });
            proof {
                assert(tokens_view(acc@) =~= prev.push(SpecToken::OpOr { pos: i as int }));
            }
            i = i + 1;
        } else if c == '(' {
            acc.push(Token::LParen { pos: i });
            proof {
                assert(tokens_view(acc@) =~= prev.push(SpecToken::LParen { pos: i as int }));
            }
            i = i + 1;
        } else if c == ')' {
            acc.push(Token::RParen { pos: i });
            proof {
                assert(tokens_view(acc@) =~= prev.push(SpecToken::RParen { pos: i as int }));
            }
            i = i + 1;
        } else {
            return Err(i);
        }
    }
    Ok(acc)
}

/// An unresolved column selector: a 1-based ordinal as written, or a header
/// name.
pub enum SpecSelector {
    Number { text: Seq<char> },
    Name { text: Seq<char> },
}

/// An unresolved operand of an equality test.
pub enum SpecRawOperand {
    Column(SpecSelector),
    StrLit(Seq<char>),
}

/// An unresolved filter expression.
pub enum SpecRawExpr {
    Cond(SpecRawOperand, SpecRawOperand),
    True,
    And(Box<SpecRawExpr>, Box<SpecRawExpr>),
    Or(Box<SpecRawExpr>, Box<SpecRawExpr>),
}

/// An unresolved query: its selectors in order, and its filter tree (the
/// always-true leaf when no `if` clause was written).
pub struct SpecRawQuery {
    pub selectors: Seq<SpecSelector>,
    pub cond: SpecRawExpr,
}

/// The character position to report at token index `j`: that token's own
/// position, or the end of the query when the tokens ran out.
pub open spec fn pos_or(tv: Seq<SpecToken>, j: int, n: int) -> int {
    if 0 <= j < tv.len() {
        tok_pos(tv[j])
    } else {
        n
    }
}

/// Parse one operand: a column reference or a quoted literal.
pub open spec fn spec_parse_operand(tv: Seq<SpecToken>, n: int, i: int) -> Result<
    (SpecRawOperand, int),
    int,
> {
    if i < 0 || i >= tv.len() {
        Err(n)
    } else {
        match tv[i] {
            SpecToken::Number { text, .. } => Ok(
                (SpecRawOperand::Column(SpecSelector::Number { text }), i + 1),
            ),
            SpecToken::Word { text, .. } => Ok(
                (SpecRawOperand::Column(SpecSelector::Name { text }), i + 1),
            ),
            SpecToken::StrLit { text, .. } => Ok((SpecRawOperand::StrLit(text), i + 1)),
            _ => Err(tok_pos(tv[i])),
        }
    }
}

/// Parse one equality test: operand `=` operand.
pub open spec fn spec_parse_cond(tv: Seq<SpecToken>, n: int, i: int) -> Result<
    (SpecRawExpr, int),
    int,
> {
    match spec_parse_operand(tv, n, i) {
        Err(p) => Err(p),
        Ok((a, j)) => if 0 <= j < tv.len() && tv[j] is OpEq {
            match spec_parse_operand(tv, n, j + 1) {
                Err(p) => Err(p),
                Ok((b, k)) => Ok((SpecRawExpr::Cond(a, b), k)),
            }
        } else {
            Err(pos_or(tv, j, n))
        },
    }
}

/// Parse one factor: an equality test, or a parenthesized expression.
pub open spec fn spec_parse_factor(tv: Seq<SpecToken>, n: int, i: int) -> Result<
    (SpecRawExpr, int),
    int,
>
    decreases tv.len() - i, 1int,
{
    if i < 0 || i >= tv.len() {
        Err(n)
    } else if tv[i] is LParen {
        match spec_parse_expr(tv, n, i + 1) {
            Err(p) => Err(p),
            Ok((e, j)) => if 0 <= j < tv.len() && tv[j] is RParen {
                Ok((e, j + 1))
            } else {
                Err(pos_or(tv, j, n))
            },
        }
    } else {
        spec_parse_cond(tv, n, i)
    }
}

/// Parse the rest of a conjunction after `acc`, left-associatively.
pub open spec fn spec_parse_term_rest(
    tv: Seq<SpecToken>,
    n: int,
    i: int,
    acc: SpecRawExpr,
) -> Result<(SpecRawExpr, int), int>
    decreases tv.len() - i, 3int,
{
    if i < 0 || i >= tv.len() {
        Ok((acc, i))
    } else if tv[i] is OpAnd {
        match spec_parse_factor(tv, n, i + 1) {
            Err(p) => Err(p),
            Ok((f, j)) => spec_parse_term_rest(
                tv,
                n,
                bump_to(i + 1, j, tv.len() as int),
                SpecRawExpr::And(Box::new(acc), Box::new(f)),
            ),
        }
    } else {
        Ok((acc, i))
    }
}

/// Parse one conjunction: factors joined by `and`, binding tighter than `or`.
pub open spec fn spec_parse_term(tv: Seq<SpecToken>, n: int, i: int) -> Result<
    (SpecRawExpr, int),
    int,
>
    decreases tv.len() - i, 2int,
{
    if i < 0 || i >= tv.len() {
        Err(n)
    } else {
        match spec_parse_factor(tv, n, i) {
            Err(p) => Err(p),
            Ok((f, j)) => spec_parse_term_rest(tv, n, bump_to(i, j, tv.len() as int), f),
        }
    }
}

/// Parse the rest of a disjunction after `acc`, left-associatively.
pub open spec fn spec_parse_expr_rest(
    tv: Seq<SpecToken>,
    n: int,
    i: int,
    acc: SpecRawExpr,
) -> Result<(SpecRawExpr, int), int>
    decreases tv.len() - i, 5int,
{
    if i < 0 || i >= tv.len() {
        Ok((acc, i))
    } else if tv[i] is OpOr {
        match spec_parse_term(tv, n, i + 1) {
            Err(p) => Err(p),
            Ok((t, j)) => spec_parse_expr_rest(
                tv,
                n,
                bump_to(i + 1, j, tv.len() as int),
                SpecRawExpr::Or(Box::new(acc), Box::new(t)),
            ),
        }
    } else {
        Ok((acc, i))
    }
}

/// Parse one filter expression: conjunctions joined by `or`, the loosest
/// level of the grammar.
pub open spec fn spec_parse_expr(tv: Seq<SpecToken>, n: int, i: int) -> Result<
    (SpecRawExpr, int),
    int,
>
    decreases tv.len() - i, 4int,
{
    if i < 0 || i >= tv.len() {
        Err(n)
    } else {
        match spec_parse_term(tv, n, i) {
            Err(p) => Err(p),
            Ok((t, j)) => spec_parse_expr_rest(tv, n, bump_to(i, j, tv.len() as int), t),
        }
    }
}

/// Collect the selector list: the longest prefix of column tokens.
pub open spec fn spec_parse_selectors(tv: Seq<SpecToken>, i: int, acc: Seq<SpecSelector>) -> (
    Seq<SpecSelector>,
    int,
)
    decreases tv.len() - i,
{
    if i < 0 || i >= tv.len() {
        (acc, i)
    } else {
        match tv[i] {
            SpecToken::Number { text, .. } => spec_parse_selectors(
                tv,
                i + 1,
                acc.push(SpecSelector::Number { text }),
            ),
            SpecToken::Word { text, .. } => spec_parse_selectors(
                tv,
                i + 1,
                acc.push(SpecSelector::Name { text }),
            ),
            _ => (acc, i),
        }
    }
}

/// Parse a whole query: one or more selectors, then an optional `if` clause,
/// then nothing more. Errors carry the character position at fault.
pub open spec fn spec_parse_query(tv: Seq<SpecToken>, n: int) -> Result<SpecRawQuery, int> {
    let (sels, j) = spec_parse_selectors(tv, 0, Seq::empty());
    if sels.len() == 0 {
        Err(pos_or(tv, 0, n))
    } else if j >= tv.len() {
        Ok(SpecRawQuery { selectors: sels, cond: SpecRawExpr::True })
    } else if tv[j] is KwIf {
        match spec_parse_expr(tv, n, j + 1) {
            Err(p) => Err(p),
            Ok((e, k)) => if k < tv.len() {
                Err(pos_or(tv, k, n))
            } else {
                Ok(SpecRawQuery { selectors: sels, cond: e })
            },
        }
    } else {
        Err(tok_pos(tv[j]))
    }
}

/// Law: `and` binds tighter than `or`. When three equality tests are joined
/// as `c1 or c2 and c3`, the expression parses to `c1 or (c2 and c3)` — the
/// conjunction groups first, and both operators associate as parsed here.
pub proof fn lemma_and_binds_tighter_than_or(
    tv: Seq<SpecToken>,
    n: int,
    i: int,
    c1: SpecRawExpr,
    c2: SpecRawExpr,
    c3: SpecRawExpr,
    j1: int,
    j2: int,
    j3: int,
)
    requires
        0 <= i,
        spec_parse_cond(tv, n, i) == Ok::<(SpecRawExpr, int), int>((c1, j1)),
        0 <= j1 < tv.len() && tv[j1] is OpOr,
        spec_parse_cond(tv, n, j1 + 1) == Ok::<(SpecRawExpr, int), int>((c2, j2)),
        0 <= j2 < tv.len() && tv[j2] is OpAnd,
        spec_parse_cond(tv, n, j2 + 1) == Ok::<(SpecRawExpr, int), int>((c3, j3)),
        j3 >= tv.len() || (!(tv[j3] is OpAnd) && !(tv[j3] is OpOr)),
    ensures
        spec_parse_expr(tv, n, i) == Ok::<(SpecRawExpr, int), int>(
            (
                SpecRawExpr::Or(
                    Box::new(c1),
                    Box::new(SpecRawExpr::And(Box::new(c2), Box::new(c3))),
                ),
                j3,
            ),
        ),
{
    lemma_parse_cond_bounds(tv, n, i);
    lemma_parse_cond_bounds(tv, n, j1 + 1);
    lemma_parse_cond_bounds(tv, n, j2 + 1);
    assert(bump_to(i, j1, tv.len() as int) == j1);
    assert(bump_to(j1 + 1, j2, tv.len() as int) == j2);
    assert(bump_to(j2 + 1, j3, tv.len() as int) == j3);
    assert(spec_parse_factor(tv, n, i) == Ok::<(SpecRawExpr, int), int>((c1, j1)));
    assert(spec_parse_term(tv, n, i) == Ok::<(SpecRawExpr, int), int>((c1, j1)));
    assert(spec_parse_factor(tv, n, j1 + 1) == Ok::<(SpecRawExpr, int), int>((c2, j2)));
    assert(spec_parse_factor(tv, n, j2 + 1) == Ok::<(SpecRawExpr, int), int>((c3, j3)));
    let t23 = SpecRawExpr::And(Box::new(c2), Box::new(c3));
    assert(spec_parse_term_rest(tv, n, j3, t23) == Ok::<(SpecRawExpr, int), int>((t23, j3)));
    assert(spec_parse_term(tv, n, j1 + 1) == Ok::<(SpecRawExpr, int), int>((t23, j3)));
    let whole = SpecRawExpr::Or(Box::new(c1), Box::new(t23));
    assert(spec_parse_expr_rest(tv, n, j3, whole) == Ok::<(SpecRawExpr, int), int>((whole, j3)));
    assert(spec_parse_expr_rest(tv, n, j1, c1) == Ok::<(SpecRawExpr, int), int>((whole, j3)));
}

/// Whatever an equality test parses from lies strictly inside the tokens: it
/// starts at an operand token and stops just past its second operand.
proof fn lemma_parse_cond_bounds(tv: Seq<SpecToken>, n: int, i: int)
    ensures
        spec_parse_cond(tv, n, i) matches Ok((c, j)) ==> 0 <= i && i + 3 == j && j <= tv.len()
            && !(tv[i] is LParen),
{
    if spec_parse_cond(tv, n, i) is Ok {
        assert(spec_parse_operand(tv, n, i) is Ok);
    }
}

/// An unresolved column selector, as executed.
pub enum RawSelector {
    Number { text: String },
    Name { text: String },
}

impl View for RawSelector {
    type V = SpecSelector;

    open spec fn view(&self) -> SpecSelector {
        match self {
            RawSelector::Number { text } => SpecSelector::Number { text: text@ },
            RawSelector::Name { text } => SpecSelector::Name { text: text@ },
        }
    }
}

/// An unresolved operand, as executed.
pub enum RawOperand {
    Column(RawSelector),
    StrLit(String),
}

impl View for RawOperand {
    type V = SpecRawOperand;

    open spec fn view(&self) -> SpecRawOperand {
        match self {
            RawOperand::Column(s) => SpecRawOperand::Column(s@),
            RawOperand::StrLit(t) => SpecRawOperand::StrLit(t@),
        }
    }
}

/// An unresolved filter expression, as executed.
pub enum RawCondExpr {
    Cond(RawOperand, RawOperand),
    True,
    And(Box<RawCondExpr>, Box<RawCondExpr>),
    Or(Box<RawCondExpr>, Box<RawCondExpr>),
}

impl View for RawCondExpr {
    type V = SpecRawExpr;

    open spec fn view(&self) -> SpecRawExpr
        decreases self,
    {
        match self {
            RawCondExpr::Cond(a, b) => SpecRawExpr::Cond(a@, b@),
            RawCondExpr::True => SpecRawExpr::True,
            RawCondExpr::And(l, r) => SpecRawExpr::And(Box::new((**l)@), Box::new((**r)@)),
            RawCondExpr::Or(l, r) => SpecRawExpr::Or(Box::new((**l)@), Box::new((**r)@)),
        }
    }
}

/// An unresolved query, as executed.
pub struct RawQuery {
    pub selectors: Vec<RawSelector>,
    pub cond: RawCondExpr,
}

/// The views of a selector vector's elements.
pub open spec fn selectors_view(v: Seq<RawSelector>) -> Seq<SpecSelector> {
    v.map_values(|s: RawSelector| s@)
}

impl View for RawQuery {
    type V = SpecRawQuery;

    open spec fn view(&self) -> SpecRawQuery {
        SpecRawQuery { selectors: selectors_view(self.selectors@), cond: self.cond@ }
    }
}

fn parse_operand(ts: &Vec<Token>, n: usize, i: usize) -> (r: Result<(RawOperand, usize), usize>)
    ensures
        match spec_parse_operand(tokens_view(ts@), n as int, i as int) {
            Ok((o, j)) => r matches Ok((ro, rj)) && ro@ == o && rj as int == j && i < rj
                <= ts@.len(),
            Err(p) => r matches Err(q) && q as int == p,
        },
{
    if i >= ts.len() {
        return Err(n);
    }
    match &ts[i] {
        Token::Number { text, .. } => Ok(
            (RawOperand::Column(RawSelector::Number { text: text.clone() }), i + 1),
        ),
        Token::Word { text, .. } => Ok(
            (RawOperand::Column(RawSelector::Name { text: text.clone() }), i + 1),
        ),
        Token::StrLit { text, .. } => Ok((RawOperand::StrLit(text.clone()), i + 1)),
        Token::KwIf { pos } => Err(*pos),
        Token::OpAnd { pos } => Err(*pos),
        Token::OpOr { pos } => Err(*pos),
        Token::OpEq { pos } => Err(*pos),
        Token::LParen { pos } => Err(*pos),
        Token::RParen { pos } => Err(*pos),
    }
}

fn parse_cond(ts: &Vec<Token>, n: usize, i: usize) -> (r: Result<(RawCondExpr, usize), usize>)
    ensures
        match spec_parse_cond(tokens_view(ts@), n as int, i as int) {
            Ok((e, j)) => r matches Ok((re, rj)) && re@ == e && rj as int == j && i < rj
                <= ts@.len(),
            Err(p) => r matches Err(q) && q as int == p,
        },
{
    let (a, j) = match parse_operand(ts, n, i) {
        Ok(x) => x,
        Err(p) => {
            return Err(p);
        },
    };
    if j < ts.len() && matches!(&ts[j], Token::OpEq { .. }) {
        let (b, k) = match parse_operand(ts, n, j + 1) {
            Ok(x) => x,
            Err(p) => {
                return Err(p);
            },
        };
        Ok((RawCondExpr::Cond(a, b), k))
    } else {
        if j < ts.len() {
            Err(token_position(&ts[j]))
        } else {
            Err(n)
        }
    }
}

/// The character position an executable token starts at.
fn token_position(t: &Token) -> (r: usize)
    ensures
        r as int == tok_pos(t@),
{
    match t {
        Token::Number { pos, .. } => *pos,
        Token::Word { pos, .. } => *pos,
        Token::StrLit { pos, .. } => *pos,
        Token::KwIf { pos } => *pos,
        Token::OpAnd { pos } => *pos,
        Token::OpOr { pos } => *pos,
        Token::OpEq { pos } => *pos,
        Token::LParen { pos } => *pos,
        Token::RParen { pos } => *pos,
    }
}

fn parse_factor(ts: &Vec<Token>, n: usize, i: usize) -> (r: Result<(RawCondExpr, usize), usize>)
    ensures
        match spec_parse_factor(tokens_view(ts@), n as int, i as int) {
            Ok((e, j)) => r matches Ok((re, rj)) && re@ == e && rj as int == j && i < rj
                <= ts@.len(),
            Err(p) => r matches Err(q) && q as int == p,
        },
    decreases ts@.len() - i, 1int,
{
    if i >= ts.len() {
        return Err(n);
    }
    if matches!(&ts[i], Token::LParen { .. }) {
        let (e, j) = match parse_expr(ts, n, i + 1) {
            Ok(x) => x,
            Err(p) => {
                return Err(p);
            },
        };
        if j < ts.len() && matches!(&ts[j], Token::RParen { .. }) {
            Ok((e, j + 1))
        } else {
            if j < ts.len() {
                Err(token_position(&ts[j]))
            } else {
                Err(n)
            }
        }
    } else {
        parse_cond(ts, n, i)
    }
}

fn parse_term_rest(ts: &Vec<Token>, n: usize, i: usize, acc: RawCondExpr) -> (r: Result<
    (RawCondExpr, usize),
    usize,
>)
    ensures
        match spec_parse_term_rest(tokens_view(ts@), n as int, i as int, acc@) {
            Ok((e, j)) => r matches Ok((re, rj)) && re@ == e && rj as int == j && i <= rj && (
            rj <= ts@.len() || rj == i),
            Err(p) => r matches Err(q) && q as int == p,
        },
    decreases ts@.len() - i, 3int,
{
    if i >= ts.len() {
        return Ok((acc, i));
    }
    if matches!(&ts[i], Token::OpAnd { .. }) {
        let (f, j) = match parse_factor(ts, n, i + 1) {
            Ok(x) => x,
            Err(p) => {
                return Err(p);
            },
        };
        proof {
            assert(bump_to(i as int + 1, j as int, ts@.len() as int) == j as int);
        }
        parse_term_rest(ts, n, j, RawCondExpr::And(Box::new(acc), Box::new(f)))
    } else {
        Ok((acc, i))
    }
}

fn parse_term(ts: &Vec<Token>, n: usize, i: usize) -> (r: Result<(RawCondExpr, usize), usize>)
    ensures
        match spec_parse_term(tokens_view(ts@), n as int, i as int) {
            Ok((e, j)) => r matches Ok((re, rj)) && re@ == e && rj as int == j && i < rj
                <= ts@.len(),
            Err(p) => r matches Err(q) && q as int == p,
        },
    decreases ts@.len() - i, 2int,
{
    if i >= ts.len() {
        return Err(n);
    }
    let (f, j) = match parse_factor(ts, n, i) {
        Ok(x) => x,
        Err(p) => {
            return Err(p);
        },
    };
    proof {
        assert(bump_to(i as int, j as int, ts@.len() as int) == j as int);
    }
    parse_term_rest(ts, n, j, f)
}

fn parse_expr_rest(ts: &Vec<Token>, n: usize, i: usize, acc: RawCondExpr) -> (r: Result<
    (RawCondExpr, usize),
    usize,
>)
    ensures
        match spec_parse_expr_rest(tokens_view(ts@), n as int, i as int, acc@) {
            Ok((e, j)) => r matches Ok((re, rj)) && re@ == e && rj as int == j && i <= rj && (
            rj <= ts@.len() || rj == i),
            Err(p) => r matches Err(q) && q as int == p,
        },
    decreases ts@.len() - i, 5int,
{
    if i >= ts.len() {
        return Ok((acc, i));
    }
    if matches!(&ts[i], Token::OpOr { .. }) {
        let (t, j) = match parse_term(ts, n, i + 1) {
            Ok(x) => x,
            Err(p) => {
                return Err(p);
            },
        };
        proof {
            assert(bump_to(i as int + 1, j as int, ts@.len() as int) == j as int);
        }
        parse_expr_rest(ts, n, j, RawCondExpr::Or(Box::new(acc), Box::new(t)))
    } else {
        Ok((acc, i))
    }
}

fn parse_expr(ts: &Vec<Token>, n: usize, i: usize) -> (r: Result<(RawCondExpr, usize), usize>)
    ensures
        match spec_parse_expr(tokens_view(ts@), n as int, i as int) {
            Ok((e, j)) => r matches Ok((re, rj)) && re@ == e && rj as int == j && i < rj
                <= ts@.len(),
            Err(p) => r matches Err(q) && q as int == p,
        },
    decreases ts@.len() - i, 4int,
{
    if i >= ts.len() {
        return Err(n);
    }
    let (t, j) = match parse_term(ts, n, i) {
        Ok(x) => x,
        Err(p) => {
            return Err(p);
        },
    };
    proof {
        assert(bump_to(i as int, j as int, ts@.len() as int) == j as int);
    }
    parse_expr_rest(ts, n, j, t)
}

fn parse_selectors(ts: &Vec<Token>, i: usize, sels: &mut Vec<RawSelector>) -> (r: usize)
    requires
        i <= old(sels)@.len() + ts@.len(),
    ensures
        spec_parse_selectors(tokens_view(ts@), i as int, selectors_view(old(sels)@)) == (
            selectors_view(final(sels)@),
            r as int,
        ),
        i <= r <= ts@.len() || (i > ts@.len() && r == i),
    decreases ts@.len() - i,
{
    if i < ts.len() {
        match &ts[i] {
            Token::Number { text, .. } => {
                let ghost prev = selectors_view(sels@);
                sels.push(RawSelector::Number { text: text.clone() });
                proof {
                    assert(selectors_view(sels@) =~= prev.push(
                        SpecSelector::Number { text: text@ },
                    ));
                }
                return parse_selectors(ts, i + 1, sels);
            },
            Token::Word { text, .. } => {
                let ghost prev = selectors_view(sels@);
                sels.push(RawSelector::Name { text: text.clone() });
                proof {
                    assert(selectors_view(sels@) =~= prev.push(SpecSelector::Name { text: text@ }));
                }
                return parse_selectors(ts, i + 1, sels);
            },
            _ => {},
        }
    }
    i
}

/// Parse a token stream into an unresolved query, or report the character
/// position of the first syntax error; `n` is the query's character length,
/// reported when the input ends too soon.
pub fn parse_query(ts: &Vec<Token>, n: usize) -> (r: Result<RawQuery, usize>)
    ensures
        match spec_parse_query(tokens_view(ts@), n as int) {
            Ok(q) => r matches Ok(rq) && rq@ == q,
            Err(p) => r matches Err(q) && q as int == p,
        },
{
    let mut sels: Vec<RawSelector> = Vec::new();
    proof {
        assert(selectors_view(sels@) =~= Seq::<SpecSelector>::empty());
    }
    let j = parse_selectors(ts, 0, &mut sels);
    if sels.len() == 0 {
        if ts.len() > 0 {
            return Err(token_position(&ts[0]));
        } else {
            return Err(n);
        }
    }
    if j >= ts.len() {
        return Ok(RawQuery { selectors: sels, cond: RawCondExpr::True });
    }
    if matches!(&ts[j], Token::KwIf { .. }) {
        let (e, k) = match parse_expr(ts, n, j + 1) {
            Ok(x) => x,
            Err(p) => {
                return Err(p);
            },
        };
        if k < ts.len() {
            Err(token_position(&ts[k]))
        } else {
            Ok(RawQuery { selectors: sels, cond: e })
        }
    } else {
        Err(token_position(&ts[j]))
    }
}

} // verus!
