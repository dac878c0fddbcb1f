use vstd::prelude::*;

use crate::lexer::{is_digit, lex_from, lex_of, number_end, Lex};
use crate::parser::{
    atom_at, expr_at, expr_tail, lex_at, number_at, parse_of, term_at, term_tail, ParseError,
};
use crate::token::Expr;

verus! {

/// Multiplication binds tighter than addition: the lexemes of `a * b + c`
/// mean `(a * b) + c`, never `a * (b + c)`.
pub proof fn law_precedence(a: Seq<char>, b: Seq<char>, c: Seq<char>)
    ensures
        parse_of(seq![Lex::Num(a), Lex::Star, Lex::Num(b), Lex::Plus, Lex::Num(c), Lex::End])
            == Ok::<Option<Expr>, ParseError>(
            Some(
                Expr::Add(
                    Box::new(Expr::Mul(Box::new(Expr::Num(a)), Box::new(Expr::Num(b)))),
                    Box::new(Expr::Num(c)),
                ),
            ),
        ),
{
    let t = seq![Lex::Num(a), Lex::Star, Lex::Num(b), Lex::Plus, Lex::Num(c), Lex::End];
    let ab = Expr::Mul(Box::new(Expr::Num(a)), Box::new(Expr::Num(b)));
    let abc = Expr::Add(Box::new(ab), Box::new(Expr::Num(c)));
    assert(lex_at(t, 0) == Lex::Num(a));
    assert(lex_at(t, 1) == Lex::Star);
    assert(lex_at(t, 2) == Lex::Num(b));
    assert(lex_at(t, 3) == Lex::Plus);
    assert(lex_at(t, 4) == Lex::Num(c));
    assert(lex_at(t, 5) == Lex::End);
    assert(atom_at(t, 0) == Ok::<(Expr, int), ParseError>((Expr::Num(a), 1)));
    assert(atom_at(t, 2) == Ok::<(Expr, int), ParseError>((Expr::Num(b), 3)));
    assert(atom_at(t, 4) == Ok::<(Expr, int), ParseError>((Expr::Num(c), 5)));
    assert(term_tail(t, ab, 3) == Ok::<(Expr, int), ParseError>((ab, 3)));
    assert(term_tail(t, Expr::Num(a), 1) == term_tail(t, ab, 3));
    assert(term_at(t, 0) == Ok::<(Expr, int), ParseError>((ab, 3)));
    assert(term_tail(t, Expr::Num(c), 5) == Ok::<(Expr, int), ParseError>((Expr::Num(c), 5)));
    assert(term_at(t, 4) == Ok::<(Expr, int), ParseError>((Expr::Num(c), 5)));
    assert(expr_tail(t, abc, 5) == Ok::<(Expr, int), ParseError>((abc, 5)));
    assert(expr_tail(t, ab, 3) == expr_tail(t, abc, 5));
    assert(expr_at(t, 0) == Ok::<(Expr, int), ParseError>((abc, 5)));
}

/// Subtraction groups to the left: the lexemes of `a - b - c` mean
/// `(a - b) - c`, never `a - (b - c)`.
pub proof fn law_left_associative(a: Seq<char>, b: Seq<char>, c: Seq<char>)
    ensures
        parse_of(seq![Lex::Num(a), Lex::Minus, Lex::Num(b), Lex::Minus, Lex::Num(c), Lex::End])
            == Ok::<Option<Expr>, ParseError>(
            Some(
                Expr::Sub(
                    Box::new(Expr::Sub(Box::new(Expr::Num(a)), Box::new(Expr::Num(b)))),
                    Box::new(Expr::Num(c)),
                ),
            ),
        ),
{
    let t = seq![Lex::Num(a), Lex::Minus, Lex::Num(b), Lex::Minus, Lex::Num(c), Lex::End];
    let ab = Expr::Sub(Box::new(Expr::Num(a)), Box::new(Expr::Num(b)));
    let abc = Expr::Sub(Box::new(ab), Box::new(Expr::Num(c)));
    assert(lex_at(t, 0) == Lex::Num(a));
    assert(lex_at(t, 1) == Lex::Minus);
    assert(lex_at(t, 2) == Lex::Num(b));
    assert(lex_at(t, 3) == Lex::Minus);
    assert(lex_at(t, 4) == Lex::Num(c));
    assert(lex_at(t, 5) == Lex::End);
    assert(atom_at(t, 0) == Ok::<(Expr, int), ParseError>((Expr::Num(a), 1)));
    assert(atom_at(t, 2) == Ok::<(Expr, int), ParseError>((Expr::Num(b), 3)));
    assert(atom_at(t, 4) == Ok::<(Expr, int), ParseError>((Expr::Num(c), 5)));
    assert(term_tail(t, Expr::Num(a), 1) == Ok::<(Expr, int), ParseError>((Expr::Num(a), 1)));
    assert(term_at(t, 0) == Ok::<(Expr, int), ParseError>((Expr::Num(a), 1)));
    assert(term_tail(t, Expr::Num(b), 3) == Ok::<(Expr, int), ParseError>((Expr::Num(b), 3)));
    assert(term_at(t, 2) == Ok::<(Expr, int), ParseError>((Expr::Num(b), 3)));
    assert(term_tail(t, Expr::Num(c), 5) == Ok::<(Expr, int), ParseError>((Expr::Num(c), 5)));
    assert(term_at(t, 4) == Ok::<(Expr, int), ParseError>((Expr::Num(c), 5)));
    assert(expr_tail(t, abc, 5) == Ok::<(Expr, int), ParseError>((abc, 5)));
    assert(expr_tail(t, ab, 3) == expr_tail(t, abc, 5));
    assert(expr_tail(t, Expr::Num(a), 1) == expr_tail(t, ab, 3));
    assert(expr_at(t, 0) == Ok::<(Expr, int), ParseError>((abc, 5)));
}

/// A tree of numbers joined by `*` and `/` alone.
pub open spec fn is_product(e: Expr) -> bool
    decreases e,
{
    match e {
        Expr::Num(_) => true,
        Expr::Mul(l, r) => is_product(*l) && is_product(*r),
        Expr::Div(l, r) => is_product(*l) && is_product(*r),
        _ => false,
    }
}

/// A left-nested chain of products joined by `+` and `-`: no sum stands below
/// a product, and the right operand of a sum or difference is a product.
pub open spec fn is_sum_of_products(e: Expr) -> bool
    decreases e,
{
    match e {
        Expr::Add(l, r) => is_sum_of_products(*l) && is_product(*r),
        Expr::Sub(l, r) => is_sum_of_products(*l) && is_product(*r),
        _ => is_product(e),
    }
}

/// No opening parenthesis occurs in `t`.
pub open spec fn paren_free(t: Seq<Lex>) -> bool {
    forall|k: int| 0 <= k < t.len() ==> t[k] != Lex::Open
}

proof fn lemma_atom_is_number(t: Seq<Lex>, i: int)
    requires
        paren_free(t),
    ensures
        atom_at(t, i) == number_at(t, i),
        atom_at(t, i) matches Ok((e, _)) ==> is_product(e),
{
    if 0 <= i < t.len() {
        assert(t[i] != Lex::Open);
    }
}

proof fn lemma_term_tail_product(t: Seq<Lex>, left: Expr, i: int)
    requires
        paren_free(t),
        is_product(left),
    ensures
        term_tail(t, left, i) matches Ok((e, _)) ==> is_product(e),
    decreases t.len() - i,
{
    lemma_atom_is_number(t, i + 1);
    match atom_at(t, i + 1) {
        Ok((r, j)) => if i < j <= t.len() {
            lemma_term_tail_product(t, Expr::Mul(Box::new(left), Box::new(r)), j);
            lemma_term_tail_product(t, Expr::Div(Box::new(left), Box::new(r)), j);
        },
        Err(_) => {},
    }
}

/// Without parentheses, a term holds no `+` or `-`: these never bind inside
/// a product.
pub proof fn law_term_is_product(t: Seq<Lex>, i: int)
    requires
        paren_free(t),
    ensures
        term_at(t, i) matches Ok((e, _)) ==> is_product(e),
{
    lemma_atom_is_number(t, i);
    match atom_at(t, i) {
        Ok((l, j)) => if i <= j <= t.len() {
            lemma_term_tail_product(t, l, j);
        },
        Err(_) => {},
    }
}

proof fn lemma_expr_tail_sum(t: Seq<Lex>, left: Expr, i: int)
    requires
        paren_free(t),
        is_sum_of_products(left),
    ensures
        expr_tail(t, left, i) matches Ok((e, _)) ==> is_sum_of_products(e),
    decreases t.len() - i,
{
    law_term_is_product(t, i + 1);
    match term_at(t, i + 1) {
        Ok((r, j)) => if i < j <= t.len() {
            lemma_expr_tail_sum(t, Expr::Add(Box::new(left), Box::new(r)), j);
            lemma_expr_tail_sum(t, Expr::Sub(Box::new(left), Box::new(r)), j);
        },
        Err(_) => {},
    }
}

/// Without parentheses, an expression is a left-nested chain of products:
/// `*` and `/` bind tighter than `+` and `-`, and `+` and `-` group to the
/// left.
pub proof fn law_expression_shape(t: Seq<Lex>, i: int)
    requires
        paren_free(t),
    ensures
        expr_at(t, i) matches Ok((e, _)) ==> is_sum_of_products(e),
{
    law_term_is_product(t, i);
    match term_at(t, i) {
        Ok((l, j)) => if i <= j <= t.len() {
            lemma_expr_tail_sum(t, l, j);
        },
        Err(_) => {},
    }
}

/// Precedence and left grouping for whole sequences: whatever tree `parse`
/// builds from lexemes without parentheses has no sum below a product, and
/// no sum or difference as the right operand of a sum or difference.
pub proof fn law_parse_shape(t: Seq<Lex>)
    requires
        paren_free(t),
    ensures
        parse_of(t) matches Ok(Some(e)) ==> is_sum_of_products(e),
{
    law_expression_shape(t, 0);
}

/// A non-empty run of decimal digits.
pub open spec fn is_numeral(a: Seq<char>) -> bool {
    a.len() > 0 && forall|k: int| 0 <= k < a.len() ==> is_digit(#[trigger] a[k])
}

proof fn lemma_number_end_run(s: Seq<char>, j: int, k: int)
    requires
        0 <= j <= k <= s.len(),
        forall|m: int| j <= m < k ==> is_digit(#[trigger] s[m]),
        k == s.len() || s[k] == ' ',
    ensures
        number_end(s, j, false) == k,
    decreases k - j,
{
    if j < k {
        lemma_number_end_run(s, j + 1, k);
    }
}

/// A numeral `a` at `i`, followed by a space or the end of the text, is one
/// number lexeme.
proof fn lemma_lex_numeral(s: Seq<char>, i: int, after_operand: bool, a: Seq<char>)
    requires
        is_numeral(a),
        0 <= i,
        i + a.len() <= s.len(),
        s.subrange(i, i + a.len()) == a,
        i + a.len() == s.len() || s[i + a.len()] == ' ',
    ensures
        lex_from(s, i, after_operand) == seq![Lex::Num(a)] + lex_from(s, i + a.len(), true),
{
    let k = i + a.len();
    assert forall|m: int| i + 1 <= m < k implies is_digit(#[trigger] s[m]) by {
        assert(s[m] == a[m - i]);
    }
    assert(s[i] == a[0]);
    lemma_number_end_run(s, i + 1, k);
}

/// The text `a op b op2 c`, operators set off by single spaces.
pub open spec fn infix_text(a: Seq<char>, op: char, b: Seq<char>, op2: char, c: Seq<char>) -> Seq<
    char,
> {
    a + seq![' ', op, ' '] + b + seq![' ', op2, ' '] + c
}

proof fn lemma_lex_infix(a: Seq<char>, op: char, b: Seq<char>, op2: char, c: Seq<char>, lop: Lex, lop2: Lex)
    requires
        is_numeral(a),
        is_numeral(b),
        is_numeral(c),
        (op == '*' && lop == Lex::Star) || (op == '-' && lop == Lex::Minus),
        (op2 == '+' && lop2 == Lex::Plus) || (op2 == '-' && lop2 == Lex::Minus),
    ensures
        lex_of(infix_text(a, op, b, op2, c)) == seq![
            Lex::Num(a),
            lop,
            Lex::Num(b),
            lop2,
            Lex::Num(c),
            Lex::End,
        ],
{
    let s = infix_text(a, op, b, op2, c);
    let la = a.len() as int;
    let lb = b.len() as int;
    let lc = c.len() as int;
    let pb = la + 3;
    let pc = pb + lb + 3;
    assert(s.len() == pc + lc);
    assert(s.subrange(0, la) =~= a);
    assert(s.subrange(pb, pb + lb) =~= b);
    assert(s.subrange(pc, pc + lc) =~= c);
    assert(s[la] == ' ' && s[la + 1] == op && s[la + 2] == ' ');
    assert(s[pb + lb] == ' ' && s[pb + lb + 1] == op2 && s[pb + lb + 2] == ' ');
    lemma_lex_numeral(s, 0, false, a);
    lemma_lex_numeral(s, pb, false, b);
    lemma_lex_numeral(s, pc, false, c);
    let tail_c = lex_from(s, pc + lc, true);
    assert(tail_c == seq![Lex::End]);
    let from_c = seq![Lex::Num(c)] + tail_c;
    assert(lex_from(s, pb + lb + 2, false) == lex_from(s, pc, false));
    assert(lex_from(s, pb + lb + 1, true) == seq![lop2] + lex_from(s, pb + lb + 2, false));
    assert(lex_from(s, pb + lb, true) == lex_from(s, pb + lb + 1, true));
    assert(lex_from(s, la + 2, false) == lex_from(s, pb, false));
    assert(lex_from(s, la + 1, true) == seq![lop] + lex_from(s, la + 2, false));
    assert(lex_from(s, la, true) == lex_from(s, la + 1, true));
    assert(lex_of(s) =~= seq![Lex::Num(a), lop, Lex::Num(b), lop2, Lex::Num(c), Lex::End]);
}

/// For numerals `a`, `b` and `c`, the text `a * b + c` means `(a * b) + c`.
pub proof fn law_precedence_of_text(a: Seq<char>, b: Seq<char>, c: Seq<char>)
    requires
        is_numeral(a),
        is_numeral(b),
        is_numeral(c),
    ensures
        parse_of(lex_of(infix_text(a, '*', b, '+', c))) == Ok::<Option<Expr>, ParseError>(
            Some(
                Expr::Add(
                    Box::new(Expr::Mul(Box::new(Expr::Num(a)), Box::new(Expr::Num(b)))),
                    Box::new(Expr::Num(c)),
                ),
            ),
        ),
{
    lemma_lex_infix(a, '*', b, '+', c, Lex::Star, Lex::Plus);
    law_precedence(a, b, c);
}

/// For numerals `a`, `b` and `c`, the text `a - b - c` means `(a - b) - c`.
pub proof fn law_left_associative_of_text(a: Seq<char>, b: Seq<char>, c: Seq<char>)
    requires
        is_numeral(a),
        is_numeral(b),
        is_numeral(c),
    ensures
        parse_of(lex_of(infix_text(a, '-', b, '-', c))) == Ok::<Option<Expr>, ParseError>(
            Some(
                Expr::Sub(
                    Box::new(Expr::Sub(Box::new(Expr::Num(a)), Box::new(Expr::Num(b)))),
                    Box::new(Expr::Num(c)),
                ),
            ),
        ),
{
    lemma_lex_infix(a, '-', b, '-', c, Lex::Minus, Lex::Minus);
    law_left_associative(a, b, c);
}

} // verus!
