//! Parsing and rendering of the SQL subset the engine rewrites: a query is
//! `select` a column list or `*`, `from` a table or a parenthesised subquery
//! with an alias, optionally `where` a conjunction of equality comparisons.
//! Keywords are matched without regard to letter case.

use vstd::prelude::*;
use crate::error::AnalyticsCoreError;
use crate::plan::{Expr, ExprS, LogicalPlan, PlanS};
use crate::text::{dec_str, u64_to_string};

verus! {

/// Is `c` a whitespace character of the grammar?
pub open spec fn is_space_c(c: char) -> bool {
    c == ' ' || c == '\n' || c == '\t' || c == '\r'
}

/// Is `c` a character of an identifier? Letters, digits, underscore, and the
/// dot of a qualified name.
pub open spec fn is_ident_c(c: char) -> bool {
    let u = c as u32;
    (97 <= u && u <= 122) || (65 <= u && u <= 90) || (48 <= u && u <= 57) || u == 95 || u
        == 46
}

/// Is `c` a decimal digit?
pub open spec fn is_digit_c(c: char) -> bool {
    let u = c as u32;
    48 <= u && u <= 57
}

/// The value of a decimal digit.
pub open spec fn digit_val(c: char) -> u64 {
    (c as u32 - 48) as u64
}

/// Do two characters agree up to letter case? `k` is the lower-case one.
pub open spec fn char_eq_ci(c: char, k: char) -> bool {
    c as u32 == k as u32 || (97 <= k as u32 && k as u32 <= 122 && c as u32 == k as u32 - 32)
}

/// Do two character sequences agree up to letter case? `k` is lower case.
pub open spec fn seq_eq_ci(a: Seq<char>, k: Seq<char>) -> bool {
    a.len() == k.len() && forall|j: int| 0 <= j < a.len() ==> char_eq_ci(a[j], #[trigger] k[j])
}

/// The first position at or after `i` holding no whitespace.
pub open spec fn spec_skip_ws(s: Seq<char>, i: int) -> int
    decreases s.len() - i,
{
    if i < 0 || i >= s.len() {
        i
    } else if is_space_c(s[i]) {
        spec_skip_ws(s, i + 1)
    } else {
        i
    }
}

/// Skipping whitespace stays within the text.
pub proof fn lemma_skip_ws_bounds(s: Seq<char>, i: int)
    requires
        0 <= i <= s.len(),
    ensures
        i <= spec_skip_ws(s, i) <= s.len(),
    decreases s.len() - i,
{
    if i < s.len() && is_space_c(s[i]) {
        lemma_skip_ws_bounds(s, i + 1);
    }
}

/// The end of the identifier word starting at `i`.
pub open spec fn spec_word_end(s: Seq<char>, i: int) -> int
    decreases s.len() - i,
{
    if i < 0 || i >= s.len() {
        i
    } else if is_ident_c(s[i]) {
        spec_word_end(s, i + 1)
    } else {
        i
    }
}

/// A word ends within the text.
pub proof fn lemma_word_end_bounds(s: Seq<char>, i: int)
    requires
        0 <= i <= s.len(),
    ensures
        i <= spec_word_end(s, i) <= s.len(),
    decreases s.len() - i,
{
    if i < s.len() && is_ident_c(s[i]) {
        lemma_word_end_bounds(s, i + 1);
    }
}

/// The position of the closing quote at or after `i`, or the text length.
pub open spec fn spec_quote_end(s: Seq<char>, i: int) -> int
    decreases s.len() - i,
{
    if i < 0 || i >= s.len() {
        s.len() as int
    } else if s[i] == '\'' {
        i
    } else {
        spec_quote_end(s, i + 1)
    }
}

/// The closing quote is within the text.
pub proof fn lemma_quote_end_bounds(s: Seq<char>, i: int)
    requires
        0 <= i <= s.len(),
    ensures
        i <= spec_quote_end(s, i) <= s.len(),
    decreases s.len() - i,
{
    if i < s.len() && s[i] != '\'' {
        lemma_quote_end_bounds(s, i + 1);
    }
}

/// Does the (lower-case) keyword stand as a whole word at position `i`?
/// Returns the match and the word's end.
pub open spec fn spec_kw_at(s: Seq<char>, i: int, kw: Seq<char>) -> (bool, int) {
    let e = spec_word_end(s, i);
    (e > i && seq_eq_ci(s.subrange(i, e), kw), e)
}

/// Ten to the `n`.
pub open spec fn pow10(n: nat) -> nat
    decreases n,
{
    if n == 0 {
        1
    } else {
        10 * pow10((n - 1) as nat)
    }
}

/// The value of the decimal digits in `s[i..e]`.
pub open spec fn spec_digits_val(s: Seq<char>, i: int, e: int) -> nat
    decreases e - i,
{
    if i >= e {
        0
    } else {
        spec_digits_val(s, i, e - 1) * 10 + digit_val(s[e - 1]) as nat
    }
}

/// The value of `n` digits is below ten to the `n`.
pub proof fn lemma_digits_val_bound(s: Seq<char>, i: int, e: int)
    requires
        i <= e,
        forall|j: int| i <= j < e ==> is_digit_c(#[trigger] s[j]),
    ensures
        spec_digits_val(s, i, e) < pow10((e - i) as nat),
    decreases e - i,
{
    if i < e {
        lemma_digits_val_bound(s, i, e - 1);
        assert(digit_val(s[e - 1]) <= 9);
    }
}

/// Ten to a smaller power is no larger.
pub proof fn lemma_pow10_mono(a: nat, b: nat)
    requires
        a <= b,
    ensures
        pow10(a) <= pow10(b),
    decreases b,
{
    if a < b {
        lemma_pow10_mono(a, (b - 1) as nat);
        assert(pow10(b) == 10 * pow10((b - 1) as nat));
    }
}

/// Ten to the eighteenth fits in a machine word.
pub proof fn lemma_pow10_18()
    ensures
        pow10(18) == 0xde0b6b3a7640000,
{
    assert(pow10(0) == 1);
    assert(pow10(1) == 10);
    assert(pow10(2) == 100);
    assert(pow10(3) == 1000);
    assert(pow10(4) == 10000);
    assert(pow10(5) == 100000);
    assert(pow10(6) == 1000000);
    assert(pow10(7) == 10000000);
    assert(pow10(8) == 100000000);
    assert(pow10(9) == 1000000000);
    assert(pow10(10) == 10000000000);
    assert(pow10(11) == 100000000000);
    assert(pow10(12) == 1000000000000);
    assert(pow10(13) == 10000000000000);
    assert(pow10(14) == 100000000000000);
    assert(pow10(15) == 1000000000000000);
    assert(pow10(16) == 10000000000000000);
    assert(pow10(17) == 100000000000000000);
    assert(pow10(18) == 1000000000000000000);
}

/// The parse of an operand: an integer literal, a quoted string literal, or a
/// column name. Returns the expression and the next position.
pub open spec fn spec_parse_operand(s: Seq<char>, i: int) -> (Option<ExprS>, int) {
    let i1 = spec_skip_ws(s, i);
    if i1 >= s.len() {
        (None, i1)
    } else if is_digit_c(s[i1]) {
        let e = spec_word_end(s, i1);
        if e - i1 <= 18 && (forall|j: int| i1 <= j < e ==> is_digit_c(#[trigger] s[j])) {
            (Some(ExprS::IntLit { value: spec_digits_val(s, i1, e) as u64 }), e)
        } else {
            (None, e)
        }
    } else if s[i1] == '\'' {
        let q = spec_quote_end(s, i1 + 1);
        if q < s.len() {
            (Some(ExprS::StrLit { value: s.subrange(i1 + 1, q) }), q + 1)
        } else {
            (None, i1)
        }
    } else if is_ident_c(s[i1]) {
        let e = spec_word_end(s, i1);
        (Some(ExprS::Column { name: s.subrange(i1, e) }), e)
    } else {
        (None, i1)
    }
}

/// An operand parse stays within the text.
pub proof fn lemma_operand_bounds(s: Seq<char>, i: int)
    requires
        0 <= i <= s.len(),
    ensures
        i <= spec_parse_operand(s, i).1 <= s.len(),
{
    lemma_skip_ws_bounds(s, i);
    let i1 = spec_skip_ws(s, i);
    if i1 < s.len() {
        lemma_word_end_bounds(s, i1);
        lemma_quote_end_bounds(s, i1 + 1);
    }
}

/// The parse of one comparison `operand = operand`.
pub open spec fn spec_parse_cmp(s: Seq<char>, i: int) -> (Option<ExprS>, int) {
    let (l, j) = spec_parse_operand(s, i);
    if l is None {
        (None, j)
    } else {
        let i2 = spec_skip_ws(s, j);
        if i2 < s.len() && s[i2] == '=' {
            let (r, k) = spec_parse_operand(s, i2 + 1);
            if r is None {
                (None, k)
            } else {
                (
                    Some(
                        ExprS::Eq {
                            left: Box::new(l->Some_0),
                            right: Box::new(r->Some_0),
                        },
                    ),
                    k,
                )
            }
        } else {
            (None, i2)
        }
    }
}

/// A comparison parse stays within the text.
pub proof fn lemma_cmp_bounds(s: Seq<char>, i: int)
    requires
        0 <= i <= s.len(),
    ensures
        i <= spec_parse_cmp(s, i).1 <= s.len(),
{
    lemma_operand_bounds(s, i);
    let (l, j) = spec_parse_operand(s, i);
    if l is Some {
        lemma_skip_ws_bounds(s, j);
        let i2 = spec_skip_ws(s, j);
        if i2 < s.len() && s[i2] == '=' {
            lemma_operand_bounds(s, i2 + 1);
        }
    }
}

/// The parse of the rest of a conjunction: zero or more `and comparison`.
pub open spec fn spec_parse_pred_rest(s: Seq<char>, i: int, acc: ExprS) -> (
    Option<ExprS>,
    int,
)
    decreases s.len() - i when 0 <= i <= s.len() via spec_parse_pred_rest_decreases
{
    let i1 = spec_skip_ws(s, i);
    let (m, e) = spec_kw_at(s, i1, "and"@);
    if m {
        let (c, k) = spec_parse_cmp(s, e);
        if c is None {
            (None, k)
        } else {
            spec_parse_pred_rest(
                s,
                k,
                ExprS::And { left: Box::new(acc), right: Box::new(c->Some_0) },
            )
        }
    } else {
        (Some(acc), i)
    }
}

#[via_fn]
proof fn spec_parse_pred_rest_decreases(s: Seq<char>, i: int, acc: ExprS) {
    lemma_skip_ws_bounds(s, i);
    let i1 = spec_skip_ws(s, i);
    lemma_word_end_bounds(s, i1);
    let (m, e) = spec_kw_at(s, i1, "and"@);
    if m {
        lemma_cmp_bounds(s, e);
    }
}

/// A conjunction parse stays within the text.
pub proof fn lemma_pred_rest_bounds(s: Seq<char>, i: int, acc: ExprS)
    requires
        0 <= i <= s.len(),
    ensures
        i <= spec_parse_pred_rest(s, i, acc).1 <= s.len(),
    decreases s.len() - i,
{
    lemma_skip_ws_bounds(s, i);
    let i1 = spec_skip_ws(s, i);
    lemma_word_end_bounds(s, i1);
    let (m, e) = spec_kw_at(s, i1, "and"@);
    if m {
        lemma_cmp_bounds(s, e);
        let (c, k) = spec_parse_cmp(s, e);
        if c is Some {
            lemma_pred_rest_bounds(
                s,
                k,
                ExprS::And { left: Box::new(acc), right: Box::new(c->Some_0) },
            );
        }
    }
}

/// The parse of a predicate: a conjunction of comparisons.
pub open spec fn spec_parse_pred(s: Seq<char>, i: int) -> (Option<ExprS>, int) {
    let (c, j) = spec_parse_cmp(s, i);
    if c is None {
        (None, j)
    } else {
        spec_parse_pred_rest(s, j, c->Some_0)
    }
}

/// A predicate parse stays within the text.
pub proof fn lemma_pred_bounds(s: Seq<char>, i: int)
    requires
        0 <= i <= s.len(),
    ensures
        i <= spec_parse_pred(s, i).1 <= s.len(),
{
    lemma_cmp_bounds(s, i);
    let (c, j) = spec_parse_cmp(s, i);
    if c is Some {
        lemma_pred_rest_bounds(s, j, c->Some_0);
    }
}

/// The parse of the rest of a column list: zero or more `, name`.
pub open spec fn spec_parse_items_rest(s: Seq<char>, i: int, acc: Seq<Seq<char>>) -> (
    Option<Seq<Seq<char>>>,
    int,
)
    decreases s.len() - i when 0 <= i <= s.len() via spec_parse_items_rest_decreases
{
    let i1 = spec_skip_ws(s, i);
    if i1 < s.len() && s[i1] == ',' {
        let i2 = spec_skip_ws(s, i1 + 1);
        let e = spec_word_end(s, i2);
        if e > i2 {
            spec_parse_items_rest(s, e, acc.push(s.subrange(i2, e)))
        } else {
            (None, i2)
        }
    } else {
        (Some(acc), i)
    }
}

#[via_fn]
proof fn spec_parse_items_rest_decreases(s: Seq<char>, i: int, acc: Seq<Seq<char>>) {
    lemma_skip_ws_bounds(s, i);
    let i1 = spec_skip_ws(s, i);
    if i1 < s.len() && s[i1] == ',' {
        lemma_skip_ws_bounds(s, i1 + 1);
        let i2 = spec_skip_ws(s, i1 + 1);
        lemma_word_end_bounds(s, i2);
    }
}

/// A column-list parse stays within the text.
pub proof fn lemma_items_rest_bounds(s: Seq<char>, i: int, acc: Seq<Seq<char>>)
    requires
        0 <= i <= s.len(),
    ensures
        i <= spec_parse_items_rest(s, i, acc).1 <= s.len(),
    decreases s.len() - i,
{
    lemma_skip_ws_bounds(s, i);
    let i1 = spec_skip_ws(s, i);
    if i1 < s.len() && s[i1] == ',' {
        lemma_skip_ws_bounds(s, i1 + 1);
        let i2 = spec_skip_ws(s, i1 + 1);
        lemma_word_end_bounds(s, i2);
        let e = spec_word_end(s, i2);
        if e > i2 {
            lemma_items_rest_bounds(s, e, acc.push(s.subrange(i2, e)));
        }
    }
}

/// The parse of a select list: `*`, or column names separated by commas.
/// `None` in the first position of a successful result means every column.
pub open spec fn spec_parse_items(s: Seq<char>, i: int) -> (
    Option<Option<Seq<Seq<char>>>>,
    int,
) {
    let i1 = spec_skip_ws(s, i);
    if i1 < s.len() && s[i1] == '*' {
        (Some(None), i1 + 1)
    } else {
        let e = spec_word_end(s, i1);
        if e > i1 {
            let (rest, j) = spec_parse_items_rest(s, e, seq![s.subrange(i1, e)]);
            if rest is None {
                (None, j)
            } else {
                (Some(Some(rest->Some_0)), j)
            }
        } else {
            (None, i1)
        }
    }
}

/// A select-list parse stays within the text.
pub proof fn lemma_items_bounds(s: Seq<char>, i: int)
    requires
        0 <= i <= s.len(),
    ensures
        i <= spec_parse_items(s, i).1 <= s.len(),
{
    lemma_skip_ws_bounds(s, i);
    let i1 = spec_skip_ws(s, i);
    lemma_word_end_bounds(s, i1);
    let e = spec_word_end(s, i1);
    if !(i1 < s.len() && s[i1] == '*') && e > i1 {
        lemma_items_rest_bounds(s, e, seq![s.subrange(i1, e)]);
    }
}

/// The parse of a table factor: a table name, or `( query ) as name`.
pub open spec fn spec_parse_factor(s: Seq<char>, i: int) -> (Option<PlanS>, int)
    decreases s.len() - i when 0 <= i <= s.len() via spec_parse_factor_decreases
{
    let i1 = spec_skip_ws(s, i);
    if i1 < s.len() && s[i1] == '(' {
        let (q, j) = spec_parse_query(s, i1 + 1);
        if q is None {
            (None, j)
        } else {
            let j2 = spec_skip_ws(s, j);
            if j2 < s.len() && s[j2] == ')' {
                let i3 = spec_skip_ws(s, j2 + 1);
                let (kwas, e) = spec_kw_at(s, i3, "as"@);
                if kwas {
                    let i4 = spec_skip_ws(s, e);
                    let e4 = spec_word_end(s, i4);
                    if e4 > i4 {
                        (
                            Some(
                                PlanS::SubqueryAlias {
                                    alias: s.subrange(i4, e4),
                                    input: Box::new(q->Some_0),
                                },
                            ),
                            e4,
                        )
                    } else {
                        (None, i4)
                    }
                } else {
                    (None, i3)
                }
            } else {
                (None, j2)
            }
        }
    } else {
        let e = spec_word_end(s, i1);
        if e > i1 {
            (Some(PlanS::TableScan { table: s.subrange(i1, e) }), e)
        } else {
            (None, i1)
        }
    }
}

#[via_fn]
proof fn spec_parse_factor_decreases(s: Seq<char>, i: int) {
    lemma_skip_ws_bounds(s, i);
}

/// A factor parse stays within the text.
pub proof fn lemma_factor_bounds(s: Seq<char>, i: int)
    requires
        0 <= i <= s.len(),
    ensures
        i <= spec_parse_factor(s, i).1 <= s.len(),
    decreases s.len() - i,
{
    lemma_skip_ws_bounds(s, i);
    let i1 = spec_skip_ws(s, i);
    lemma_word_end_bounds(s, i1);
    if i1 < s.len() && s[i1] == '(' {
        lemma_query_bounds(s, i1 + 1);
        let (q, j) = spec_parse_query(s, i1 + 1);
        if q is Some {
            lemma_skip_ws_bounds(s, j);
            let j2 = spec_skip_ws(s, j);
            if j2 < s.len() && s[j2] == ')' {
                lemma_skip_ws_bounds(s, j2 + 1);
                let i3 = spec_skip_ws(s, j2 + 1);
                lemma_word_end_bounds(s, i3);
                let (kwas, e) = spec_kw_at(s, i3, "as"@);
                if kwas {
                    lemma_skip_ws_bounds(s, e);
                    let i4 = spec_skip_ws(s, e);
                    lemma_word_end_bounds(s, i4);
                }
            }
        }
    }
}

/// The parse of a query:
/// `select <items> from <factor> [where <predicate>]`.
pub open spec fn spec_parse_query(s: Seq<char>, i: int) -> (Option<PlanS>, int)
    decreases s.len() - i when 0 <= i <= s.len() via spec_parse_query_decreases
{
    let i1 = spec_skip_ws(s, i);
    let (sel, e0) = spec_kw_at(s, i1, "select"@);
    if !sel {
        (None, i1)
    } else {
        let (items, j) = spec_parse_items(s, e0);
        if items is None {
            (None, j)
        } else {
            let j1 = spec_skip_ws(s, j);
            let (fr, e1) = spec_kw_at(s, j1, "from"@);
            if !fr {
                (None, j1)
            } else {
                let (f, k) = spec_parse_factor(s, e1);
                if f is None {
                    (None, k)
                } else {
                    let k1 = spec_skip_ws(s, k);
                    let (wh, e2) = spec_kw_at(s, k1, "where"@);
                    if wh {
                        let (p, m) = spec_parse_pred(s, e2);
                        if p is None {
                            (None, m)
                        } else {
                            (
                                Some(
                                    PlanS::Projection {
                                        columns: items->Some_0,
                                        input: Box::new(
                                            PlanS::Filter {
                                                predicate: p->Some_0,
                                                input: Box::new(f->Some_0),
                                            },
                                        ),
                                    },
                                ),
                                m,
                            )
                        }
                    } else {
                        (
                            Some(
                                PlanS::Projection {
                                    columns: items->Some_0,
                                    input: Box::new(f->Some_0),
                                },
                            ),
                            k,
                        )
                    }
                }
            }
        }
    }
}

#[via_fn]
proof fn spec_parse_query_decreases(s: Seq<char>, i: int) {
    lemma_skip_ws_bounds(s, i);
    let i1 = spec_skip_ws(s, i);
    lemma_word_end_bounds(s, i1);
    let (sel, e0) = spec_kw_at(s, i1, "select"@);
    if sel {
        lemma_items_bounds(s, e0);
        let (items, j) = spec_parse_items(s, e0);
        if items is Some {
            lemma_skip_ws_bounds(s, j);
            let j1 = spec_skip_ws(s, j);
            lemma_word_end_bounds(s, j1);
        }
    }
}

/// A query parse stays within the text.
pub proof fn lemma_query_bounds(s: Seq<char>, i: int)
    requires
        0 <= i <= s.len(),
    ensures
        i <= spec_parse_query(s, i).1 <= s.len(),
    decreases s.len() - i,
{
    lemma_skip_ws_bounds(s, i);
    let i1 = spec_skip_ws(s, i);
    lemma_word_end_bounds(s, i1);
    let (sel, e0) = spec_kw_at(s, i1, "select"@);
    if sel {
        lemma_items_bounds(s, e0);
        let (items, j) = spec_parse_items(s, e0);
        if items is Some {
            lemma_skip_ws_bounds(s, j);
            let j1 = spec_skip_ws(s, j);
            lemma_word_end_bounds(s, j1);
            let (fr, e1) = spec_kw_at(s, j1, "from"@);
            if fr {
                lemma_factor_bounds(s, e1);
                let (f, k) = spec_parse_factor(s, e1);
                if f is Some {
                    lemma_skip_ws_bounds(s, k);
                    let k1 = spec_skip_ws(s, k);
                    lemma_word_end_bounds(s, k1);
                    let (wh, e2) = spec_kw_at(s, k1, "where"@);
                    if wh {
                        lemma_pred_bounds(s, e2);
                    }
                }
            }
        }
    }
}

/// The parse of a whole SQL text: a query covering the full text.
pub open spec fn spec_parse_sql(s: Seq<char>) -> Option<PlanS> {
    let (q, j) = spec_parse_query(s, 0);
    if q is Some && spec_skip_ws(s, j) == s.len() {
        q
    } else {
        None
    }
}

/// Does the executable option match the ghost one?
pub open spec fn m_expr(a: Option<Expr>, b: Option<ExprS>) -> bool {
    match (a, b) {
        (Some(x), Some(y)) => x@ == y,
        (None, None) => true,
        _ => false,
    }
}

/// Does the executable option match the ghost one?
pub open spec fn m_plan(a: Option<LogicalPlan>, b: Option<PlanS>) -> bool {
    match (a, b) {
        (Some(x), Some(y)) => x@ == y,
        (None, None) => true,
        _ => false,
    }
}

/// Skip whitespace.
fn skip_ws(s: &str, i: usize) -> (r: usize)
    requires
        i <= s@.len(),
    ensures
        r == spec_skip_ws(s@, i as int),
        i <= r <= s@.len(),
    decreases s@.len() - i,
{
    let n: usize = s.unicode_len();
    if i >= n {
        i
    } else {
        let c = s.get_char(i);
        if c == ' ' || c == '\n' || c == '\t' || c == '\r' {
            skip_ws(s, i + 1)
        } else {
            i
        }
    }
}

/// Find the end of the identifier word at `i`.
fn word_end(s: &str, i: usize) -> (r: usize)
    requires
        i <= s@.len(),
    ensures
        r == spec_word_end(s@, i as int),
        i <= r <= s@.len(),
    decreases s@.len() - i,
{
    let n: usize = s.unicode_len();
    if i >= n {
        i
    } else {
        let c = s.get_char(i);
        let u = c as u32;
        if (97 <= u && u <= 122) || (65 <= u && u <= 90) || (48 <= u && u <= 57) || u == 95
            || u == 46 {
            word_end(s, i + 1)
        } else {
            i
        }
    }
}

/// Find the closing quote at or after `i`.
fn quote_end(s: &str, i: usize) -> (r: usize)
    requires
        i <= s@.len(),
    ensures
        r == spec_quote_end(s@, i as int),
        i <= r <= s@.len(),
    decreases s@.len() - i,
{
    let n: usize = s.unicode_len();
    if i >= n {
        n
    } else if s.get_char(i) == '\'' {
        i
    } else {
        quote_end(s, i + 1)
    }
}

/// Does the keyword stand as a whole word at `i`?
fn kw_at(s: &str, i: usize, kw: &str) -> (r: (bool, usize))
    requires
        i <= s@.len(),
    ensures
        (r.0, r.1 as int) == spec_kw_at(s@, i as int, kw@),
        i <= r.1 <= s@.len(),
{
    let e = word_end(s, i);
    if e == i {
        return (false, e);
    }
    let m: usize = kw.unicode_len();
    if e - i != m {
        proof {
            assert(s@.subrange(i as int, e as int).len() != kw@.len());
        }
        return (false, e);
    }
    let mut j: usize = 0;
    while j < m
        invariant
            i < e <= s@.len(),
            e == spec_word_end(s@, i as int),
            m == kw@.len(),
            m == e - i,
            j <= m,
            forall|k: int|
                0 <= k < j ==> char_eq_ci(s@.subrange(i as int, e as int)[k], kw@[k]),
        decreases m - j,
    {
        let cs = s.get_char(i + j);
        let ck = kw.get_char(j);
        let us = cs as u32;
        let uk = ck as u32;
        if !(us == uk || (97 <= uk && uk <= 122 && us == uk - 32)) {
            proof {
                assert(s@.subrange(i as int, e as int)[j as int] == s@[i + j]);
                assert(!char_eq_ci(s@.subrange(i as int, e as int)[j as int], kw@[j as int]));
            }
            return (false, e);
        }
        proof {
            assert(s@.subrange(i as int, e as int)[j as int] == s@[i + j]);
        }
        j += 1;
    }
    (true, e)
}

/// Compute the value of the decimal digits in `s[i..e]`.
fn digits_val(s: &str, i: usize, e: usize) -> (r: u64)
    requires
        i <= e <= s@.len(),
        e - i <= 18,
        forall|j: int| i <= j < e ==> is_digit_c(#[trigger] s@[j]),
    ensures
        r == spec_digits_val(s@, i as int, e as int),
    decreases e - i,
{
    if i >= e {
        0
    } else {
        let prev = digits_val(s, i, e - 1);
        let c = s.get_char(e - 1);
        let d: u64 = (c as u32 - 48) as u64;
        proof {
            lemma_digits_val_bound(s@, i as int, e - 1);
            lemma_pow10_mono((e - 1 - i) as nat, 17);
            lemma_pow10_18();
            assert(pow10(18) == 10 * pow10(17));
        }
        prev * 10 + d
    }
}

/// Parse one operand: an integer literal, a string literal, or a column name.
fn parse_operand(s: &str, i: usize) -> (r: (Option<Expr>, usize))
    requires
        i <= s@.len(),
    ensures
        ({
            let (o, j) = spec_parse_operand(s@, i as int);
            m_expr(r.0, o) && r.1 == j
        }),
        i <= r.1 <= s@.len(),
{
    let n: usize = s.unicode_len();
    let i1 = skip_ws(s, i);
    if i1 >= n {
        return (None, i1);
    }
    let c = s.get_char(i1);
    let u = c as u32;
    if 48 <= u && u <= 57 {
        let e = word_end(s, i1);
        let mut j: usize = i1;
        while j < e
            invariant
                i <= i1 <= j <= e <= s@.len(),
                i1 < s@.len(),
                is_digit_c(s@[i1 as int]),
                i1 == spec_skip_ws(s@, i as int),
                e == spec_word_end(s@, i1 as int),
                forall|k: int| i1 <= k < j ==> is_digit_c(#[trigger] s@[k]),
            decreases e - j,
        {
            let cj = s.get_char(j);
            let uj = cj as u32;
            if !(48 <= uj && uj <= 57) {
                proof {
                    assert(!is_digit_c(s@[j as int]));
                }
                return (None, e);
            }
            j += 1;
        }
        if e - i1 <= 18 {
            let v = digits_val(s, i1, e);
            (Some(Expr::IntLit { value: v }), e)
        } else {
            (None, e)
        }
    } else if c == '\'' {
        let q = quote_end(s, i1 + 1);
        if q < n {
            let text = s.substring_char(i1 + 1, q);
            (Some(Expr::StrLit { value: String::from_str(text) }), q + 1)
        } else {
            (None, i1)
        }
    } else if (97 <= u && u <= 122) || (65 <= u && u <= 90) || u == 95 || u == 46 {
        let e = word_end(s, i1);
        let text = s.substring_char(i1, e);
        (Some(Expr::Column { name: String::from_str(text) }), e)
    } else {
        proof {
            assert(!is_digit_c(s@[i1 as int]));
            assert(!is_ident_c(s@[i1 as int]));
        }
        (None, i1)
    }
}

/// Parse one comparison `operand = operand`.
fn parse_cmp(s: &str, i: usize) -> (r: (Option<Expr>, usize))
    requires
        i <= s@.len(),
    ensures
        ({
            let (o, j) = spec_parse_cmp(s@, i as int);
            m_expr(r.0, o) && r.1 == j
        }),
        i <= r.1 <= s@.len(),
{
    let n: usize = s.unicode_len();
    let (l, j) = parse_operand(s, i);
    match l {
        None => (None, j),
        Some(le) => {
            let i2 = skip_ws(s, j);
            if i2 < n && s.get_char(i2) == '=' {
                let (rr, k) = parse_operand(s, i2 + 1);
                match rr {
                    None => (None, k),
                    Some(re) => (
                        Some(Expr::Eq { left: Box::new(le), right: Box::new(re) }),
                        k,
                    ),
                }
            } else {
                (None, i2)
            }
        },
    }
}

/// Parse the rest of a conjunction.
fn parse_pred_rest(s: &str, i: usize, acc: Expr) -> (r: (Option<Expr>, usize))
    requires
        i <= s@.len(),
    ensures
        ({
            let (o, j) = spec_parse_pred_rest(s@, i as int, acc@);
            m_expr(r.0, o) && r.1 == j
        }),
        i <= r.1 <= s@.len(),
    decreases s@.len() - i,
{
    let i1 = skip_ws(s, i);
    let (m, e) = kw_at(s, i1, "and");
    if m {
        let (c, k) = parse_cmp(s, e);
        match c {
            None => (None, k),
            Some(ce) => parse_pred_rest(
                s,
                k,
                Expr::And { left: Box::new(acc), right: Box::new(ce) },
            ),
        }
    } else {
        (Some(acc), i)
    }
}

/// Parse a predicate: a conjunction of comparisons.
fn parse_pred(s: &str, i: usize) -> (r: (Option<Expr>, usize))
    requires
        i <= s@.len(),
    ensures
        ({
            let (o, j) = spec_parse_pred(s@, i as int);
            m_expr(r.0, o) && r.1 == j
        }),
        i <= r.1 <= s@.len(),
{
    let (c, j) = parse_cmp(s, i);
    match c {
        None => (None, j),
        Some(ce) => parse_pred_rest(s, j, ce),
    }
}

/// Parse the rest of a column list.
fn parse_items_rest(s: &str, i: usize, acc: Vec<String>) -> (r: (
    Option<Vec<String>>,
    usize,
))
    requires
        i <= s@.len(),
    ensures
        ({
            let (o, j) = spec_parse_items_rest(s@, i as int, crate::plan::names_view(acc@));
            r.1 == j && match (r.0, o) {
                (Some(v), Some(q)) => crate::plan::names_view(v@) == q,
                (None, None) => true,
                _ => false,
            }
        }),
        i <= r.1 <= s@.len(),
    decreases s@.len() - i,
{
    let n: usize = s.unicode_len();
    let i1 = skip_ws(s, i);
    if i1 < n && s.get_char(i1) == ',' {
        let i2 = skip_ws(s, i1 + 1);
        let e = word_end(s, i2);
        if e > i2 {
            let text = s.substring_char(i2, e);
            let mut acc2 = acc;
            acc2.push(String::from_str(text));
            proof {
                assert(crate::plan::names_view(acc2@) =~= crate::plan::names_view(
                    acc@,
                ).push(s@.subrange(i2 as int, e as int)));
            }
            parse_items_rest(s, e, acc2)
        } else {
            (None, i2)
        }
    } else {
        (Some(acc), i)
    }
}

/// Parse a select list: `*` or column names separated by commas.
fn parse_items(s: &str, i: usize) -> (r: (Option<Option<Vec<String>>>, usize))
    requires
        i <= s@.len(),
    ensures
        ({
            let (o, j) = spec_parse_items(s@, i as int);
            r.1 == j && match (r.0, o) {
                (Some(None), Some(None)) => true,
                (Some(Some(v)), Some(Some(q))) => crate::plan::names_view(v@) == q,
                (None, None) => true,
                _ => false,
            }
        }),
        i <= r.1 <= s@.len(),
{
    let n: usize = s.unicode_len();
    let i1 = skip_ws(s, i);
    if i1 < n && s.get_char(i1) == '*' {
        return (Some(None), i1 + 1);
    }
    let e = word_end(s, i1);
    if e > i1 {
        let text = s.substring_char(i1, e);
        let mut first: Vec<String> = Vec::new();
        first.push(String::from_str(text));
        proof {
            assert(crate::plan::names_view(first@) =~= seq![
                s@.subrange(i1 as int, e as int),
            ]);
        }
        let (rest, j) = parse_items_rest(s, e, first);
        match rest {
            None => (None, j),
            Some(v) => (Some(Some(v)), j),
        }
    } else {
        (None, i1)
    }
}

/// Parse a table factor: a table name, or `( query ) as name`.
fn parse_factor(s: &str, i: usize) -> (r: (Option<LogicalPlan>, usize))
    requires
        i <= s@.len(),
    ensures
        ({
            let (o, j) = spec_parse_factor(s@, i as int);
            m_plan(r.0, o) && r.1 == j
        }),
        i <= r.1 <= s@.len(),
    decreases s@.len() - i, 0int,
{
    let n: usize = s.unicode_len();
    let i1 = skip_ws(s, i);
    if i1 < n && s.get_char(i1) == '(' {
        let (q, j) = parse_query(s, i1 + 1);
        match q {
            None => (None, j),
            Some(qp) => {
                let j2 = skip_ws(s, j);
                if j2 < n && s.get_char(j2) == ')' {
                    let i3 = skip_ws(s, j2 + 1);
                    let (kwas, e) = kw_at(s, i3, "as");
                    if kwas {
                        let i4 = skip_ws(s, e);
                        let e4 = word_end(s, i4);
                        if e4 > i4 {
                            let text = s.substring_char(i4, e4);
                            (
                                Some(
                                    LogicalPlan::SubqueryAlias {
                                        alias: String::from_str(text),
                                        input: Box::new(qp),
                                    },
                                ),
                                e4,
                            )
                        } else {
                            (None, i4)
                        }
                    } else {
                        (None, i3)
                    }
                } else {
                    (None, j2)
                }
            },
        }
    } else {
        let e = word_end(s, i1);
        if e > i1 {
            let text = s.substring_char(i1, e);
            (Some(LogicalPlan::TableScan { table: String::from_str(text) }), e)
        } else {
            (None, i1)
        }
    }
}

/// Parse a query: `select <items> from <factor> [where <predicate>]`.
fn parse_query(s: &str, i: usize) -> (r: (Option<LogicalPlan>, usize))
    requires
        i <= s@.len(),
    ensures
        ({
            let (o, j) = spec_parse_query(s@, i as int);
            m_plan(r.0, o) && r.1 == j
        }),
        i <= r.1 <= s@.len(),
    decreases s@.len() - i, 1int,
{
    let i1 = skip_ws(s, i);
    let (sel, e0) = kw_at(s, i1, "select");
    if !sel {
        return (None, i1);
    }
    let (items, j) = parse_items(s, e0);
    match items {
        None => (None, j),
        Some(cols) => {
            let j1 = skip_ws(s, j);
            let (fr, e1) = kw_at(s, j1, "from");
            if !fr {
                return (None, j1);
            }
            let (f, k) = parse_factor(s, e1);
            match f {
                None => (None, k),
                Some(fp) => {
                    let k1 = skip_ws(s, k);
                    let (wh, e2) = kw_at(s, k1, "where");
                    if wh {
                        let (p, m) = parse_pred(s, e2);
                        match p {
                            None => (None, m),
                            Some(pe) => {
                                let ghost fpv = fp@;
                                let ghost pev = pe@;
                                let flt = LogicalPlan::Filter {
                                    predicate: pe,
                                    input: Box::new(fp),
                                };
                                proof {
                                    assert(flt@ == PlanS::Filter {
                                        predicate: pev,
                                        input: Box::new(fpv),
                                    });
                                }
                                let prj = LogicalPlan::Projection {
                                    columns: cols,
                                    input: Box::new(flt),
                                };
                                proof {
                                    assert(prj@ == PlanS::Projection {
                                        columns: crate::plan::columns_view(cols),
                                        input: Box::new(flt@),
                                    });
                                }
                                (Some(prj), m)
                            },
                        }
                    } else {
                        let ghost fpv = fp@;
                        let prj = LogicalPlan::Projection {
                            columns: cols,
                            input: Box::new(fp),
                        };
                        proof {
                            assert(prj@ == PlanS::Projection {
                                columns: crate::plan::columns_view(cols),
                                input: Box::new(fpv),
                            });
                        }
                        (Some(prj), k)
                    }
                },
            }
        },
    }
}

/// Parse a whole SQL text into a logical plan. Succeeds exactly when the
/// grammar accepts the full text.
pub fn parse_sql(s: &str) -> (r: Result<LogicalPlan, AnalyticsCoreError>)
    ensures
        match r {
            Ok(p) => spec_parse_sql(s@) == Some(p@),
            Err(e) => spec_parse_sql(s@) is None && e.is_sql_parse(),
        },
{
    let n: usize = s.unicode_len();
    let (q, j) = parse_query(s, 0);
    match q {
        Some(p) => {
            let j1 = skip_ws(s, j);
            if j1 == n {
                Ok(p)
            } else {
                Err(AnalyticsCoreError::SqlParse(String::from_str(
                    "unexpected text after the query",
                )))
            }
        },
        None => Err(AnalyticsCoreError::SqlParse(String::from_str(
            "the text is not a query of the supported form",
        ))),
    }
}


/// The rendering of an expression back to SQL text.
pub open spec fn spec_render_expr(e: ExprS) -> Seq<char>
    decreases e,
{
    match e {
        ExprS::Column { name } => name,
        ExprS::Qualified { model, column } => model + "."@ + column,
        ExprS::IntLit { value } => dec_str(value as nat),
        ExprS::StrLit { value } => "'"@ + value + "'"@,
        ExprS::BoolLit { value } => if value {
            "true"@
        } else {
            "false"@
        },
        ExprS::Eq { left, right } => spec_render_expr(*left) + " = "@ + spec_render_expr(
            *right,
        ),
        ExprS::And { left, right } => spec_render_expr(*left) + " and "@ + spec_render_expr(
            *right,
        ),
    }
}

/// Render an expression back to SQL text.
pub fn render_expr(e: &Expr) -> (r: String)
    ensures
        r@ == spec_render_expr(e@),
    decreases *e,
{
    match e {
        Expr::Column { name } => name.clone(),
        Expr::Qualified { model, column } => {
            let mut s = model.clone();
            s.append(".");
            s.append(column.as_str());
            s
        },
        Expr::IntLit { value } => u64_to_string(*value),
        Expr::StrLit { value } => {
            let mut s = String::from_str("'");
            s.append(value.as_str());
            s.append("'");
            s
        },
        Expr::BoolLit { value } => {
            if *value {
                String::from_str("true")
            } else {
                String::from_str("false")
            }
        },
        Expr::Eq { left, right } => {
            let mut s = render_expr(left);
            s.append(" = ");
            let rr = render_expr(right);
            s.append(rr.as_str());
            s
        },
        Expr::And { left, right } => {
            let mut s = render_expr(left);
            s.append(" and ");
            let rr = render_expr(right);
            s.append(rr.as_str());
            s
        },
    }
}

/// The rendering of a column list.
pub open spec fn spec_render_list(c: Seq<Seq<char>>) -> Seq<char>
    decreases c.len(),
{
    if c.len() == 0 {
        Seq::empty()
    } else if c.len() == 1 {
        c[0]
    } else {
        c[0] + ", "@ + spec_render_list(c.skip(1))
    }
}

/// The rendering of a select list: `*`, or the column names.
pub open spec fn spec_render_cols(cols: Option<Seq<Seq<char>>>) -> Seq<char> {
    match cols {
        None => "*"@,
        Some(c) => spec_render_list(c),
    }
}

/// Render the column names from index `i` on.
fn render_list_from(v: &Vec<String>, i: usize) -> (r: String)
    requires
        i <= v@.len(),
    ensures
        r@ == spec_render_list(crate::plan::names_view(v@).skip(i as int)),
    decreases v@.len() - i,
{
    let ghost nv = crate::plan::names_view(v@);
    if i >= v.len() {
        proof {
            assert(nv.skip(i as int) =~= Seq::<Seq<char>>::empty());
        }
        String::new()
    } else if i + 1 == v.len() {
        proof {
            assert(nv.skip(i as int).len() == 1);
            assert(nv.skip(i as int)[0] == v@[i as int]@);
        }
        v[i].clone()
    } else {
        let mut s = v[i].clone();
        s.append(", ");
        let rest = render_list_from(v, i + 1);
        s.append(rest.as_str());
        proof {
            assert(nv.skip(i as int)[0] == v@[i as int]@);
            assert(nv.skip(i as int).skip(1) =~= nv.skip(i + 1));
            assert(nv.skip(i as int).len() == v@.len() - i);
        }
        s
    }
}

/// The rendering of a plan as a table factor.
pub open spec fn spec_render_factor(p: PlanS) -> Seq<char>
    decreases p, 1int,
{
    match p {
        PlanS::TableScan { table } => table,
        PlanS::SubqueryAlias { alias, input } => "("@ + spec_unparse_query(*input) + ") as "@
            + alias,
        _ => "("@ + spec_unparse_query(p) + ")"@,
    }
}

/// The rendering of a plan as a query. A projection renders as its select
/// list over its input; any other root is rendered as a scan of every
/// column over itself as a factor.
pub open spec fn spec_unparse_query(p: PlanS) -> Seq<char>
    decreases p, 0int,
{
    match p {
        PlanS::Projection { columns, input } => {
            match *input {
                PlanS::Filter { predicate, input: f } => "select "@ + spec_render_cols(
                    columns,
                ) + " from "@ + spec_render_factor(*f) + " where "@ + spec_render_expr(
                    predicate,
                ),
                _ => "select "@ + spec_render_cols(columns) + " from "@
                    + spec_render_factor(*input),
            }
        },
        PlanS::TableScan { table } => "select * from "@ + table,
        PlanS::SubqueryAlias { alias, input } => "select * from ("@ + spec_unparse_query(
            *input,
        ) + ") as "@ + alias,
        PlanS::Filter { predicate, input } => "select * from "@ + spec_render_factor(*input)
            + " where "@ + spec_render_expr(predicate),
    }
}

/// Render a plan as a table factor.
fn render_factor(p: &LogicalPlan) -> (r: String)
    ensures
        r@ == spec_render_factor(p@),
    decreases *p, 1int,
{
    match p {
        LogicalPlan::TableScan { table } => table.clone(),
        LogicalPlan::SubqueryAlias { alias, input } => {
            let mut s = String::from_str("(");
            let q = unparse_plan(input);
            s.append(q.as_str());
            s.append(") as ");
            s.append(alias.as_str());
            s
        },
        _ => {
            let mut s = String::from_str("(");
            let q = unparse_plan(p);
            s.append(q.as_str());
            s.append(")");
            s
        },
    }
}

/// Render a plan back to SQL text.
pub fn unparse_plan(p: &LogicalPlan) -> (r: String)
    ensures
        r@ == spec_unparse_query(p@),
    decreases *p, 0int,
{
    match p {
        LogicalPlan::Projection { columns, input } => {
            proof {
                assert(p@ == PlanS::Projection {
                    columns: crate::plan::columns_view(*columns),
                    input: Box::new((**input)@),
                });
            }
            let mut s = String::from_str("select ");
            match columns {
                None => s.append("*"),
                Some(v) => {
                    let c = render_list_from(v, 0);
                    proof {
                        assert(crate::plan::names_view(v@).skip(0) =~= crate::plan::names_view(
                            v@,
                        ));
                    }
                    s.append(c.as_str());
                },
            }
            s.append(" from ");
            match &**input {
                LogicalPlan::Filter { predicate, input: f } => {
                    proof {
                        assert((**input)@ == PlanS::Filter {
                            predicate: predicate@,
                            input: Box::new((**f)@),
                        });
                    }
                    let fs = render_factor(f);
                    s.append(fs.as_str());
                    s.append(" where ");
                    let ps = render_expr(predicate);
                    s.append(ps.as_str());
                },
                _ => {
                    let fs = render_factor(input);
                    s.append(fs.as_str());
                },
            }
            s
        },
        LogicalPlan::TableScan { table } => {
            let mut s = String::from_str("select * from ");
            s.append(table.as_str());
            s
        },
        LogicalPlan::SubqueryAlias { alias, input } => {
            let mut s = String::from_str("select * from (");
            let q = unparse_plan(input);
            s.append(q.as_str());
            s.append(") as ");
            s.append(alias.as_str());
            s
        },
        LogicalPlan::Filter { predicate, input } => {
            let mut s = String::from_str("select * from ");
            let fs = render_factor(input);
            s.append(fs.as_str());
            s.append(" where ");
            let ps = render_expr(predicate);
            s.append(ps.as_str());
            s
        },
    }
}

} // verus!
