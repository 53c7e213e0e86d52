//! Writing syntax trees as tokens, and the proof that the grammar reads
//! every tree back from its tokens.
//!
//! The printer puts a parenthesis exactly where the grammar needs one: a
//! sum or a product that stands where a factor is expected, and a sum that
//! stands where a term is expected. That the grammar gives the tree back
//! shows, for all trees at once, that `*` and `/` bind tighter than `+`
//! and `-`, and that operators of one level group from the left.

use super::grammar::{
    block_spec, done, expect_identifier_spec, expect_spec, expr_spec, expr_tail_spec, factor_spec,
    function_spec, program_spec, rest, statement_spec, term_spec, term_tail_spec, Outcome,
    SpecExpression, SpecFunc, SpecStatement,
};
use super::tokens::{Keyword, SpecToken};
use vstd::prelude::*;

verus! {

/// Whether the grammar has a way to write the expression: it holds no
/// node that the grammar has no operator for.
pub open spec fn writable(e: SpecExpression) -> bool
    decreases e,
{
    match e {
        SpecExpression::Number(_) => true,
        SpecExpression::String(_) => true,
        SpecExpression::Boolean(_) => true,
        SpecExpression::Null => true,
        SpecExpression::Neg(x) => writable(*x),
        SpecExpression::Not(x) => writable(*x),
        SpecExpression::Add(l, r) => writable(*l) && writable(*r),
        SpecExpression::Sub(l, r) => writable(*l) && writable(*r),
        SpecExpression::Mul(l, r) => writable(*l) && writable(*r),
        SpecExpression::Div(l, r) => writable(*l) && writable(*r),
        SpecExpression::Join(_, _) => false,
        SpecExpression::And(_, _) => false,
        SpecExpression::Or(_, _) => false,
    }
}

/// Whether `t` is one of the four binary operators.
pub open spec fn is_operator(t: SpecToken) -> bool {
    t == SpecToken::Symbol('+') || t == SpecToken::Symbol('-') || t == SpecToken::Symbol('*') || t
        == SpecToken::Symbol('/')
}

/// Whether `r` can follow an expression without becoming part of it: it is
/// empty or begins with a token that is no binary operator.
pub open spec fn ends_expression(r: Seq<SpecToken>) -> bool {
    r.len() == 0 || !is_operator(r[0])
}

/// The tokens of `e` where a factor is expected: a literal as it is, a
/// negation with its sign in front, a sum or a product in parentheses.
pub open spec fn factor_tokens(e: SpecExpression) -> Seq<SpecToken>
    decreases e, 0nat,
{
    match e {
        SpecExpression::Number(n) => seq![SpecToken::Number(n)],
        SpecExpression::String(t) => seq![SpecToken::String(t)],
        SpecExpression::Boolean(b) => seq![
            SpecToken::Keyword(if b {
                Keyword::True
            } else {
                Keyword::False
            }),
        ],
        SpecExpression::Null => seq![SpecToken::Keyword(Keyword::Null)],
        SpecExpression::Neg(x) => seq![SpecToken::Symbol('-')] + factor_tokens(*x),
        SpecExpression::Not(x) => seq![SpecToken::Keyword(Keyword::Not)] + factor_tokens(*x),
        SpecExpression::Add(l, r) => seq![SpecToken::Symbol('(')] + (expr_tokens(*l)
            + seq![SpecToken::Symbol('+')] + term_tokens(*r)) + seq![SpecToken::Symbol(')')],
        SpecExpression::Sub(l, r) => seq![SpecToken::Symbol('(')] + (expr_tokens(*l)
            + seq![SpecToken::Symbol('-')] + term_tokens(*r)) + seq![SpecToken::Symbol(')')],
        SpecExpression::Mul(l, r) => seq![SpecToken::Symbol('(')] + (term_tokens(*l)
            + seq![SpecToken::Symbol('*')] + factor_tokens(*r)) + seq![SpecToken::Symbol(')')],
        SpecExpression::Div(l, r) => seq![SpecToken::Symbol('(')] + (term_tokens(*l)
            + seq![SpecToken::Symbol('/')] + factor_tokens(*r)) + seq![SpecToken::Symbol(')')],
        _ => Seq::empty(),
    }
}

/// The tokens of `e` where a term is expected: a product as its left
/// operand, the operator and its right operand, anything else as a factor.
pub open spec fn term_tokens(e: SpecExpression) -> Seq<SpecToken>
    decreases e, 1nat,
{
    match e {
        SpecExpression::Mul(l, r) => term_tokens(*l) + seq![SpecToken::Symbol('*')]
            + factor_tokens(*r),
        SpecExpression::Div(l, r) => term_tokens(*l) + seq![SpecToken::Symbol('/')]
            + factor_tokens(*r),
        _ => factor_tokens(e),
    }
}

/// The tokens of `e` where an expression is expected: a sum as its left
/// operand, the operator and its right operand, anything else as a term.
pub open spec fn expr_tokens(e: SpecExpression) -> Seq<SpecToken>
    decreases e, 2nat,
{
    match e {
        SpecExpression::Add(l, r) => expr_tokens(*l) + seq![SpecToken::Symbol('+')] + term_tokens(
            *r,
        ),
        SpecExpression::Sub(l, r) => expr_tokens(*l) + seq![SpecToken::Symbol('-')] + term_tokens(
            *r,
        ),
        _ => term_tokens(e),
    }
}

/// Whether `e` is a sum or a difference.
pub open spec fn is_sum(e: SpecExpression) -> bool {
    e is Add || e is Sub
}

/// Whether `e` is a product or a quotient.
pub open spec fn is_product(e: SpecExpression) -> bool {
    e is Mul || e is Div
}

/// The place of the factor level in the order in which the three levels
/// of `e` are shown to read back.
pub open spec fn factor_rank(e: SpecExpression) -> nat {
    if is_sum(e) {
        1
    } else if is_product(e) {
        2
    } else {
        0
    }
}

/// The place of the term level in that order.
pub open spec fn term_rank(e: SpecExpression) -> nat {
    if is_sum(e) {
        2
    } else if is_product(e) {
        0
    } else {
        1
    }
}

/// The place of the expression level in that order.
pub open spec fn expr_rank(e: SpecExpression) -> nat {
    if is_sum(e) {
        0
    } else if is_product(e) {
        1
    } else {
        2
    }
}

/// Four texts in a row are the first and then the other three in a row.
proof fn lemma_regroup(
    a: Seq<SpecToken>,
    b: Seq<SpecToken>,
    c: Seq<SpecToken>,
    d: Seq<SpecToken>,
)
    ensures
        a + b + c + d == a + (b + c + d),
        (a + b + c).len() == a.len() + b.len() + c.len(),
{
    assert(a + b + c + d =~= a + (b + c + d));
}

/// An expression in parentheses reads as a factor with the value of the
/// expression.
proof fn lemma_parenthesised(e: SpecExpression, inner: Seq<SpecToken>, r: Seq<SpecToken>)
    requires
        expr_spec(inner + (seq![SpecToken::Symbol(')')] + r)) == done(e, inner.len()),
    ensures
        factor_spec(seq![SpecToken::Symbol('(')] + inner + seq![SpecToken::Symbol(')')] + r)
            == done(e, inner.len() + 2),
{
    let after = seq![SpecToken::Symbol(')')] + r;
    let s = seq![SpecToken::Symbol('(')] + inner + seq![SpecToken::Symbol(')')] + r;
    assert(s[0] == SpecToken::Symbol('('));
    assert(s.skip(1) =~= inner + after);
    assert(rest(inner + after, inner.len()) =~= after);
    assert(after[0] == SpecToken::Symbol(')'));
}

/// A sign and a factor read as a factor: the negation of that factor.
proof fn lemma_signed(sign: SpecToken, x: SpecExpression, ft: Seq<SpecToken>, r: Seq<SpecToken>)
    requires
        sign == SpecToken::Symbol('-') || sign == SpecToken::Keyword(Keyword::Not),
        factor_spec(ft + r) == done(x, ft.len()),
    ensures
        factor_spec(seq![sign] + ft + r) == done(
            if sign == SpecToken::Symbol('-') {
                SpecExpression::Neg(Box::new(x))
            } else {
                SpecExpression::Not(Box::new(x))
            },
            1 + ft.len(),
        ),
{
    let s = seq![sign] + ft + r;
    assert(s[0] == sign);
    assert(s.skip(1) =~= ft + r);
}

/// A factor at the front begins a term.
proof fn lemma_term_begins(e: SpecExpression, ft: Seq<SpecToken>, r: Seq<SpecToken>)
    requires
        factor_spec(ft + r) == done(e, ft.len()),
    ensures
        term_spec(ft + r) == term_tail_spec(e, r).after(ft.len()),
{
    assert(rest(ft + r, ft.len()) =~= r);
}

/// A term at the front begins an expression.
proof fn lemma_expr_begins(e: SpecExpression, tt: Seq<SpecToken>, r: Seq<SpecToken>)
    requires
        term_spec(tt + r) == done(e, tt.len()),
    ensures
        expr_spec(tt + r) == expr_tail_spec(e, r).after(tt.len()),
{
    assert(rest(tt + r, tt.len()) =~= r);
}

/// After a term with the value `left`, a `*` or `/` and a factor make
/// the product or quotient of the two the value so far.
proof fn lemma_term_goes_on(
    left: SpecExpression,
    star: bool,
    x: SpecExpression,
    ft: Seq<SpecToken>,
    r: Seq<SpecToken>,
)
    requires
        factor_spec(ft + r) == done(x, ft.len()),
    ensures
        term_tail_spec(left, seq![SpecToken::Symbol(if star { '*' } else { '/' })] + ft + r)
            == term_tail_spec(
            if star {
                SpecExpression::Mul(Box::new(left), Box::new(x))
            } else {
                SpecExpression::Div(Box::new(left), Box::new(x))
            },
            r,
        ).after(1 + ft.len()),
{
    let s = seq![SpecToken::Symbol(if star { '*' } else { '/' })] + ft + r;
    assert(s[0] == SpecToken::Symbol(if star { '*' } else { '/' }));
    assert(s.skip(1) =~= ft + r);
    assert(rest(ft + r, ft.len()) =~= r);
}

/// After an expression with the value `left`, a `+` or `-` and a term
/// make the sum or difference of the two the value so far.
proof fn lemma_expr_goes_on(
    left: SpecExpression,
    plus: bool,
    x: SpecExpression,
    tt: Seq<SpecToken>,
    r: Seq<SpecToken>,
)
    requires
        term_spec(tt + r) == done(x, tt.len()),
    ensures
        expr_tail_spec(left, seq![SpecToken::Symbol(if plus { '+' } else { '-' })] + tt + r)
            == expr_tail_spec(
            if plus {
                SpecExpression::Add(Box::new(left), Box::new(x))
            } else {
                SpecExpression::Sub(Box::new(left), Box::new(x))
            },
            r,
        ).after(1 + tt.len()),
{
    let s = seq![SpecToken::Symbol(if plus { '+' } else { '-' })] + tt + r;
    assert(s[0] == SpecToken::Symbol(if plus { '+' } else { '-' }));
    assert(s.skip(1) =~= tt + r);
    assert(rest(tt + r, tt.len()) =~= r);
}

/// A sum or a product, where a factor is expected, is written as its
/// expression tokens in parentheses.
proof fn lemma_factor_tokens_of_binary(e: SpecExpression)
    requires
        is_sum(e) || is_product(e),
    ensures
        factor_tokens(e) == seq![SpecToken::Symbol('(')] + expr_tokens(e) + seq![
            SpecToken::Symbol(')'),
        ],
{
    match e {
        SpecExpression::Add(l, x) => {
            assert(expr_tokens(e) == expr_tokens(*l) + seq![SpecToken::Symbol('+')] + term_tokens(
                *x,
            ));
        },
        SpecExpression::Sub(l, x) => {
            assert(expr_tokens(e) == expr_tokens(*l) + seq![SpecToken::Symbol('-')] + term_tokens(
                *x,
            ));
        },
        SpecExpression::Mul(l, x) => {
            assert(expr_tokens(e) == term_tokens(e));
            assert(term_tokens(e) == term_tokens(*l) + seq![SpecToken::Symbol('*')]
                + factor_tokens(*x));
        },
        SpecExpression::Div(l, x) => {
            assert(expr_tokens(e) == term_tokens(e));
            assert(term_tokens(e) == term_tokens(*l) + seq![SpecToken::Symbol('/')]
                + factor_tokens(*x));
        },
        _ => {},
    }
}

/// An expression that reads back up to a `+` or `-`, and a term after it
/// that reads back and that neither `*` nor `/` follows, read back
/// together as their sum or difference.
proof fn lemma_sum_reads_back(
    l: SpecExpression,
    lt: Seq<SpecToken>,
    plus: bool,
    x: SpecExpression,
    tt: Seq<SpecToken>,
    r: Seq<SpecToken>,
)
    requires
        r.len() == 0 || (r[0] != SpecToken::Symbol('*') && r[0] != SpecToken::Symbol('/')),
        expr_spec(lt + (seq![SpecToken::Symbol(if plus { '+' } else { '-' })] + tt + r))
            == expr_tail_spec(
            l,
            seq![SpecToken::Symbol(if plus { '+' } else { '-' })] + tt + r,
        ).after(lt.len()),
        term_spec(tt + r) == term_tail_spec(x, r).after(tt.len()),
    ensures
        expr_spec(lt + seq![SpecToken::Symbol(if plus { '+' } else { '-' })] + tt + r)
            == expr_tail_spec(
            if plus {
                SpecExpression::Add(Box::new(l), Box::new(x))
            } else {
                SpecExpression::Sub(Box::new(l), Box::new(x))
            },
            r,
        ).after(lt.len() + 1 + tt.len()),
{
    let op = seq![SpecToken::Symbol(if plus { '+' } else { '-' })];
    assert(term_tail_spec(x, r) == done(x, 0));
    lemma_expr_goes_on(l, plus, x, tt, r);
    lemma_regroup(lt, op, tt, r);
}

/// A term that reads back up to a `*` or `/`, and a factor after it that
/// reads back, read back together as their product or quotient.
proof fn lemma_product_reads_back(
    l: SpecExpression,
    lt: Seq<SpecToken>,
    star: bool,
    x: SpecExpression,
    ft: Seq<SpecToken>,
    r: Seq<SpecToken>,
)
    requires
        term_spec(lt + (seq![SpecToken::Symbol(if star { '*' } else { '/' })] + ft + r))
            == term_tail_spec(
            l,
            seq![SpecToken::Symbol(if star { '*' } else { '/' })] + ft + r,
        ).after(lt.len()),
        factor_spec(ft + r) == done(x, ft.len()),
    ensures
        term_spec(lt + seq![SpecToken::Symbol(if star { '*' } else { '/' })] + ft + r)
            == term_tail_spec(
            if star {
                SpecExpression::Mul(Box::new(l), Box::new(x))
            } else {
                SpecExpression::Div(Box::new(l), Box::new(x))
            },
            r,
        ).after(lt.len() + 1 + ft.len()),
{
    let op = seq![SpecToken::Symbol(if star { '*' } else { '/' })];
    lemma_term_goes_on(l, star, x, ft, r);
    lemma_regroup(lt, op, ft, r);
}

/// A term that reads back, and that neither `*` nor `/` follows, reads
/// back as an expression.
proof fn lemma_term_as_expr(e: SpecExpression, tt: Seq<SpecToken>, r: Seq<SpecToken>)
    requires
        r.len() == 0 || (r[0] != SpecToken::Symbol('*') && r[0] != SpecToken::Symbol('/')),
        term_spec(tt + r) == term_tail_spec(e, r).after(tt.len()),
    ensures
        expr_spec(tt + r) == expr_tail_spec(e, r).after(tt.len()),
{
    assert(term_tail_spec(e, r) == done(e, 0));
    lemma_expr_begins(e, tt, r);
}

/// A text of tokens that begins with the factor tokens of `e` reads as the
/// factor `e`, whatever follows.
pub proof fn lemma_factor_reads_back(e: SpecExpression, r: Seq<SpecToken>)
    requires
        writable(e),
    ensures
        factor_tokens(e).len() >= 1,
        factor_spec(factor_tokens(e) + r) == done(e, factor_tokens(e).len()),
    decreases e, factor_rank(e),
{
    let s = factor_tokens(e) + r;
    match e {
        SpecExpression::Neg(x) => {
            lemma_factor_reads_back(*x, r);
            lemma_signed(SpecToken::Symbol('-'), *x, factor_tokens(*x), r);
        },
        SpecExpression::Not(x) => {
            lemma_factor_reads_back(*x, r);
            lemma_signed(SpecToken::Keyword(Keyword::Not), *x, factor_tokens(*x), r);
        },
        SpecExpression::Add(_, _) | SpecExpression::Sub(_, _) | SpecExpression::Mul(_, _)
        | SpecExpression::Div(_, _) => {
            let inner = expr_tokens(e);
            let after = seq![SpecToken::Symbol(')')] + r;
            lemma_expr_reads_back(e, after);
            assert(expr_tail_spec(e, after) == done(e, 0));
            lemma_parenthesised(e, inner, r);
            lemma_factor_tokens_of_binary(e);
        },
        _ => {
            assert(s[0] == factor_tokens(e)[0]);
        },
    }
}

/// A text of tokens that begins with the term tokens of `e` reads as a
/// term that has the value `e` so far and goes on with what follows.
pub proof fn lemma_term_reads_back(e: SpecExpression, r: Seq<SpecToken>)
    requires
        writable(e),
    ensures
        term_tokens(e).len() >= 1,
        term_spec(term_tokens(e) + r) == term_tail_spec(e, r).after(term_tokens(e).len()),
    decreases e, term_rank(e),
{
    match e {
        SpecExpression::Mul(l, x) => {
            let ft = factor_tokens(*x);
            lemma_term_reads_back(*l, seq![SpecToken::Symbol('*')] + ft + r);
            lemma_factor_reads_back(*x, r);
            lemma_product_reads_back(*l, term_tokens(*l), true, *x, ft, r);
        },
        SpecExpression::Div(l, x) => {
            let ft = factor_tokens(*x);
            lemma_term_reads_back(*l, seq![SpecToken::Symbol('/')] + ft + r);
            lemma_factor_reads_back(*x, r);
            lemma_product_reads_back(*l, term_tokens(*l), false, *x, ft, r);
        },
        _ => {
            lemma_factor_reads_back(e, r);
            lemma_term_begins(e, factor_tokens(e), r);
        },
    }
}

/// A text of tokens that begins with the expression tokens of `e`, and
/// goes on with neither `*` nor `/`, reads as an expression that has the
/// value `e` so far and goes on with what follows.
pub proof fn lemma_expr_reads_back(e: SpecExpression, r: Seq<SpecToken>)
    requires
        writable(e),
        r.len() == 0 || (r[0] != SpecToken::Symbol('*') && r[0] != SpecToken::Symbol('/')),
    ensures
        expr_tokens(e).len() >= 1,
        expr_spec(expr_tokens(e) + r) == expr_tail_spec(e, r).after(expr_tokens(e).len()),
    decreases e, expr_rank(e),
{
    match e {
        SpecExpression::Add(l, x) => {
            let tt = term_tokens(*x);
            lemma_expr_reads_back(*l, seq![SpecToken::Symbol('+')] + tt + r);
            lemma_term_reads_back(*x, r);
            lemma_sum_reads_back(*l, expr_tokens(*l), true, *x, tt, r);
        },
        SpecExpression::Sub(l, x) => {
            let tt = term_tokens(*x);
            lemma_expr_reads_back(*l, seq![SpecToken::Symbol('-')] + tt + r);
            lemma_term_reads_back(*x, r);
            lemma_sum_reads_back(*l, expr_tokens(*l), false, *x, tt, r);
        },
        _ => {
            lemma_term_reads_back(e, r);
            lemma_term_as_expr(e, term_tokens(e), r);
        },
    }
}

/// The grammar reads an expression back from its tokens: where the tokens
/// of `e` are followed by no binary operator, they read as `e` and
/// nothing more is taken.
pub proof fn lemma_expression_reads_back(e: SpecExpression, r: Seq<SpecToken>)
    requires
        writable(e),
        ends_expression(r),
    ensures
        expr_spec(expr_tokens(e) + r) == done(e, expr_tokens(e).len()),
{
    lemma_expr_reads_back(e, r);
}

/// Whether the grammar has a way to write the statement.
pub open spec fn writable_statement(st: SpecStatement) -> bool
    decreases st,
{
    match st {
        SpecStatement::Return(e) => writable(e),
        SpecStatement::Drop(e) => writable(e),
        SpecStatement::If(c, b) => writable(c) && writable_block(b),
        SpecStatement::Do(_) => false,
        SpecStatement::While(_, _) => false,
    }
}

/// Whether the grammar has a way to write every statement of the block.
pub open spec fn writable_block(b: Seq<SpecStatement>) -> bool
    decreases b,
{
    forall|i: int| 0 <= i < b.len() ==> writable_statement(#[trigger] b[i])
}

/// The tokens of a statement: its keyword and what the grammar puts after
/// it.
pub open spec fn statement_tokens(st: SpecStatement) -> Seq<SpecToken>
    decreases st,
{
    match st {
        SpecStatement::Return(e) => seq![SpecToken::Keyword(Keyword::Return)] + expr_tokens(e),
        SpecStatement::Drop(e) => seq![SpecToken::Keyword(Keyword::Drop)] + expr_tokens(e),
        SpecStatement::If(c, b) => seq![SpecToken::Keyword(Keyword::If)] + expr_tokens(c)
            + seq![SpecToken::Keyword(Keyword::Then)] + block_tokens(b),
        _ => Seq::empty(),
    }
}

/// The tokens of a block: those of its statements in order, and `end`.
pub open spec fn block_tokens(b: Seq<SpecStatement>) -> Seq<SpecToken>
    decreases b,
{
    if b.len() == 0 {
        seq![SpecToken::Keyword(Keyword::End)]
    } else {
        statement_tokens(b[0]) + block_tokens(b.skip(1))
    }
}

/// The tokens of a function definition after its `func`: the name, an
/// empty pair of parentheses, and the body.
pub open spec fn function_tokens(f: SpecFunc) -> Seq<SpecToken> {
    seq![SpecToken::Identifier(f.id), SpecToken::Symbol('('), SpecToken::Symbol(')')]
        + block_tokens(f.block)
}

/// The tokens of a program: for each function `func` and the tokens of its
/// definition.
pub open spec fn program_tokens(p: Seq<SpecFunc>) -> Seq<SpecToken>
    decreases p.len(),
{
    if p.len() == 0 {
        Seq::empty()
    } else {
        seq![SpecToken::Keyword(Keyword::Func)] + function_tokens(p[0]) + program_tokens(p.skip(1))
    }
}

/// Whether the grammar has a way to write every function of the program.
pub open spec fn writable_program(p: Seq<SpecFunc>) -> bool {
    forall|i: int| 0 <= i < p.len() ==> writable_block(#[trigger] p[i].block)
}

/// The tokens of a block begin with a keyword: that of its first
/// statement, or `end`.
pub proof fn lemma_block_tokens_begin(b: Seq<SpecStatement>)
    requires
        writable_block(b),
    ensures
        block_tokens(b).len() >= 1,
        block_tokens(b)[0] is Keyword,
{
    if b.len() > 0 {
        assert(writable_statement(b[0]));
        let st = statement_tokens(b[0]);
        assert(st.len() >= 1 && st[0] is Keyword) by {
            match b[0] {
                SpecStatement::Return(e) => {},
                SpecStatement::Drop(e) => {},
                SpecStatement::If(c, body) => {},
                _ => {},
            }
        }
        assert(block_tokens(b)[0] == st[0]);
    }
}

/// A `return` or `drop` and an expression that reads back read as that
/// statement.
proof fn lemma_simple_statement(
    keyword: Keyword,
    e: SpecExpression,
    et: Seq<SpecToken>,
    r: Seq<SpecToken>,
)
    requires
        keyword == Keyword::Return || keyword == Keyword::Drop,
        expr_spec(et + r) == done(e, et.len()),
    ensures
        statement_spec(SpecToken::Keyword(keyword), et + r) == done(
            if keyword == Keyword::Return {
                SpecStatement::Return(e)
            } else {
                SpecStatement::Drop(e)
            },
            et.len(),
        ),
{
}

/// An `if`, a condition that reads back, a `then` and a block that reads
/// back read as that statement.
proof fn lemma_if_statement(
    c: SpecExpression,
    ct: Seq<SpecToken>,
    b: Seq<SpecStatement>,
    bt: Seq<SpecToken>,
    r: Seq<SpecToken>,
)
    requires
        expr_spec(ct + (seq![SpecToken::Keyword(Keyword::Then)] + bt + r)) == done(c, ct.len()),
        block_spec(bt + r) == done(b, bt.len()),
    ensures
        statement_spec(
            SpecToken::Keyword(Keyword::If),
            ct + seq![SpecToken::Keyword(Keyword::Then)] + bt + r,
        ) == done(SpecStatement::If(c, b), ct.len() + 1 + bt.len()),
{
    let marker = seq![SpecToken::Keyword(Keyword::Then)];
    let s = ct + marker + bt + r;
    let after_cond = marker + bt + r;
    assert(s =~= ct + after_cond);
    assert(rest(s, ct.len()) =~= after_cond);
    assert(after_cond[0] == SpecToken::Keyword(Keyword::Then));
    assert(rest(after_cond, 1) =~= bt + r);
}

/// A statement that reads back from the tokens after its keyword, and a
/// block after it that reads back, read back together as one block.
proof fn lemma_block_goes_on(
    first: SpecStatement,
    keyword: SpecToken,
    st: Seq<SpecToken>,
    others: Seq<SpecStatement>,
    bt: Seq<SpecToken>,
    r: Seq<SpecToken>,
)
    requires
        keyword != SpecToken::Keyword(Keyword::End),
        statement_spec(keyword, st + (bt + r)) == done(first, st.len()),
        block_spec(bt + r) == done(others, bt.len()),
    ensures
        block_spec(seq![keyword] + st + bt + r) == done(
            seq![first] + others,
            1 + st.len() + bt.len(),
        ),
{
    let s = seq![keyword] + st + bt + r;
    assert(s[0] == keyword);
    assert(s.skip(1) =~= st + (bt + r));
    assert(rest(st + (bt + r), st.len()) =~= bt + r);
}

/// A text of tokens that begins with the tokens of a statement, and goes
/// on with no binary operator, reads after the statement's keyword as
/// that statement.
pub proof fn lemma_statement_reads_back(st: SpecStatement, r: Seq<SpecToken>)
    requires
        writable_statement(st),
        ends_expression(r),
    ensures
        statement_tokens(st).len() >= 1,
        statement_tokens(st)[0] is Keyword,
        statement_tokens(st)[0] != SpecToken::Keyword(Keyword::End),
        statement_spec(statement_tokens(st)[0], statement_tokens(st).skip(1) + r) == done(
            st,
            (statement_tokens(st).len() - 1) as nat,
        ),
    decreases st,
{
    let all = statement_tokens(st);
    match st {
        SpecStatement::Return(e) => {
            let et = expr_tokens(e);
            lemma_expression_reads_back(e, r);
            lemma_simple_statement(Keyword::Return, e, et, r);
            assert(all.skip(1) =~= et);
        },
        SpecStatement::Drop(e) => {
            let et = expr_tokens(e);
            lemma_expression_reads_back(e, r);
            lemma_simple_statement(Keyword::Drop, e, et, r);
            assert(all.skip(1) =~= et);
        },
        SpecStatement::If(c, b) => {
            let ct = expr_tokens(c);
            let bt = block_tokens(b);
            let marker = seq![SpecToken::Keyword(Keyword::Then)];
            assert((marker + bt + r)[0] == SpecToken::Keyword(Keyword::Then));
            lemma_expression_reads_back(c, marker + bt + r);
            lemma_block_reads_back(b, r);
            lemma_if_statement(c, ct, b, bt, r);
            lemma_regroup(ct, marker, bt, r);
            assert(all.skip(1) =~= ct + marker + bt);
        },
        _ => {},
    }
}

/// A text of tokens that begins with the tokens of a block reads as that
/// block, whatever follows.
pub proof fn lemma_block_reads_back(b: Seq<SpecStatement>, r: Seq<SpecToken>)
    requires
        writable_block(b),
    ensures
        block_spec(block_tokens(b) + r) == done(b, block_tokens(b).len()),
    decreases b,
{
    if b.len() == 0 {
        let s = block_tokens(b) + r;
        assert(s[0] == SpecToken::Keyword(Keyword::End));
        assert(b =~= Seq::<SpecStatement>::empty());
    } else {
        let first = b[0];
        let others = b.skip(1);
        let all = statement_tokens(first);
        let bt = block_tokens(others);
        assert(writable_statement(first));
        assert(writable_block(others)) by {
            assert forall|i: int| 0 <= i < others.len() implies writable_statement(
                #[trigger] others[i],
            ) by {
                assert(others[i] == b[i + 1]);
            }
        }
        lemma_block_tokens_begin(others);
        assert((bt + r)[0] == bt[0]);
        lemma_statement_reads_back(first, bt + r);
        lemma_block_reads_back(others, r);
        lemma_block_goes_on(first, all[0], all.skip(1), others, bt, r);
        assert(seq![all[0]] + all.skip(1) =~= all);
        assert(block_tokens(b) + r =~= seq![all[0]] + all.skip(1) + bt + r);
        assert(seq![first] + others =~= b);
    }
}

/// A text of tokens that begins with the tokens of a function definition
/// reads, after the `func`, as that definition, whatever follows.
pub proof fn lemma_function_reads_back(f: SpecFunc, r: Seq<SpecToken>)
    requires
        writable_block(f.block),
    ensures
        function_spec(function_tokens(f) + r) == done(f, function_tokens(f).len()),
{
    let bt = block_tokens(f.block);
    let s = function_tokens(f) + r;
    lemma_block_reads_back(f.block, r);
    assert(s[0] == SpecToken::Identifier(f.id));
    let s1 = rest(s, 1);
    assert(s1[0] == SpecToken::Symbol('('));
    let s2 = rest(s1, 1);
    assert(s2[0] == SpecToken::Symbol(')'));
    assert(rest(s2, 1) =~= bt + r);
}

/// The grammar reads a program back from its tokens, and takes them all.
pub proof fn lemma_program_reads_back(p: Seq<SpecFunc>)
    requires
        writable_program(p),
    ensures
        program_spec(program_tokens(p)) == done(p, program_tokens(p).len()),
    decreases p.len(),
{
    if p.len() == 0 {
        assert(p =~= Seq::<SpecFunc>::empty());
    } else {
        let others = p.skip(1);
        let ft = function_tokens(p[0]);
        let pt = program_tokens(others);
        let s = program_tokens(p);
        assert(writable_program(others)) by {
            assert forall|i: int| 0 <= i < others.len() implies writable_block(
                #[trigger] others[i].block,
            ) by {
                assert(others[i] == p[i + 1]);
            }
        }
        lemma_function_reads_back(p[0], pt);
        lemma_program_reads_back(others);
        assert(s[0] == SpecToken::Keyword(Keyword::Func));
        assert(s.skip(1) =~= ft + pt);
        assert(rest(ft + pt, ft.len()) =~= pt);
        assert(seq![p[0]] + others =~= p);
    }
}

/// Whether the outcome, if it is a success, holds an expression that the
/// grammar has a way to write.
pub open spec fn gives_writable(o: Outcome<SpecExpression>) -> bool {
    o.result matches Ok(e) ==> writable(e)
}

/// The grammar gives only factors that it has a way to write.
pub proof fn lemma_factor_gives_writable(s: Seq<SpecToken>)
    ensures
        gives_writable(factor_spec(s)),
    decreases s.len(), 0nat,
{
    if s.len() > 0 {
        let tail = s.skip(1);
        match s[0] {
            SpecToken::Symbol('(') => {
                lemma_expr_gives_writable(tail);
            },
            SpecToken::Symbol('-') => {
                lemma_factor_gives_writable(tail);
            },
            SpecToken::Keyword(Keyword::Not) => {
                lemma_factor_gives_writable(tail);
            },
            _ => {},
        }
    }
}

/// The repetition after a term, begun with an expression that can be
/// written, gives only expressions that can be written.
pub proof fn lemma_term_tail_gives_writable(left: SpecExpression, s: Seq<SpecToken>)
    requires
        writable(left),
    ensures
        gives_writable(term_tail_spec(left, s)),
    decreases s.len(), 1nat,
{
    if s.len() > 0 && (s[0] == SpecToken::Symbol('*') || s[0] == SpecToken::Symbol('/')) {
        let tail = s.skip(1);
        let right = factor_spec(tail);
        lemma_factor_gives_writable(tail);
        match right.result {
            Err(_) => {},
            Ok(e) => {
                let node = if s[0] == SpecToken::Symbol('*') {
                    SpecExpression::Mul(Box::new(left), Box::new(e))
                } else {
                    SpecExpression::Div(Box::new(left), Box::new(e))
                };
                lemma_term_tail_gives_writable(node, rest(tail, right.used));
            },
        }
    }
}

/// The grammar gives only terms that it has a way to write.
pub proof fn lemma_term_gives_writable(s: Seq<SpecToken>)
    ensures
        gives_writable(term_spec(s)),
    decreases s.len(), 2nat,
{
    let first = factor_spec(s);
    lemma_factor_gives_writable(s);
    match first.result {
        Err(_) => {},
        Ok(e) => {
            lemma_term_tail_gives_writable(e, rest(s, first.used));
        },
    }
}

/// The repetition after an expression, begun with an expression that can
/// be written, gives only expressions that can be written.
pub proof fn lemma_expr_tail_gives_writable(left: SpecExpression, s: Seq<SpecToken>)
    requires
        writable(left),
    ensures
        gives_writable(expr_tail_spec(left, s)),
    decreases s.len(), 3nat,
{
    if s.len() > 0 && (s[0] == SpecToken::Symbol('+') || s[0] == SpecToken::Symbol('-')) {
        let tail = s.skip(1);
        let right = term_spec(tail);
        lemma_term_gives_writable(tail);
        match right.result {
            Err(_) => {},
            Ok(e) => {
                let node = if s[0] == SpecToken::Symbol('+') {
                    SpecExpression::Add(Box::new(left), Box::new(e))
                } else {
                    SpecExpression::Sub(Box::new(left), Box::new(e))
                };
                lemma_expr_tail_gives_writable(node, rest(tail, right.used));
            },
        }
    }
}

/// The grammar gives only expressions that it has a way to write.
pub proof fn lemma_expr_gives_writable(s: Seq<SpecToken>)
    ensures
        gives_writable(expr_spec(s)),
    decreases s.len(), 4nat,
{
    let first = term_spec(s);
    lemma_term_gives_writable(s);
    match first.result {
        Err(_) => {},
        Ok(e) => {
            lemma_expr_tail_gives_writable(e, rest(s, first.used));
        },
    }
}

/// The grammar gives only statements that it has a way to write.
pub proof fn lemma_statement_gives_writable(first: SpecToken, s: Seq<SpecToken>)
    ensures
        statement_spec(first, s).result matches Ok(st) ==> writable_statement(st),
    decreases s.len(), 0nat,
{
    match first {
        SpecToken::Keyword(Keyword::Return) | SpecToken::Keyword(Keyword::Drop) => {
            lemma_expr_gives_writable(s);
        },
        SpecToken::Keyword(Keyword::If) => {
            let cond = expr_spec(s);
            lemma_expr_gives_writable(s);
            if cond.result is Ok {
                let after_cond = rest(s, cond.used);
                let marker = expect_spec(after_cond, SpecToken::Keyword(Keyword::Then));
                if marker.result is Ok {
                    lemma_block_gives_writable(rest(after_cond, marker.used));
                }
            }
        },
        _ => {},
    }
}

/// The grammar gives only blocks that it has a way to write.
pub proof fn lemma_block_gives_writable(s: Seq<SpecToken>)
    ensures
        block_spec(s).result matches Ok(b) ==> writable_block(b),
    decreases s.len(), 1nat,
{
    if s.len() > 0 && s[0] != SpecToken::Keyword(Keyword::End) {
        let tail = s.skip(1);
        let first = statement_spec(s[0], tail);
        lemma_statement_gives_writable(s[0], tail);
        if let Ok(stmt) = first.result {
            let others = block_spec(rest(tail, first.used));
            lemma_block_gives_writable(rest(tail, first.used));
            if let Ok(b) = others.result {
                let all = seq![stmt] + b;
                assert forall|i: int| 0 <= i < all.len() implies writable_statement(
                    #[trigger] all[i],
                ) by {
                    if i > 0 {
                        assert(all[i] == b[i - 1]);
                    }
                }
            }
        }
    }
}

/// The grammar gives only programs that it has a way to write.
pub proof fn lemma_program_gives_writable(s: Seq<SpecToken>)
    ensures
        program_spec(s).result matches Ok(p) ==> writable_program(p),
    decreases s.len(),
{
    if s.len() > 0 && s[0] == SpecToken::Keyword(Keyword::Func) {
        let tail = s.skip(1);
        let first = function_spec(tail);
        if let Ok(func) = first.result {
            let name = expect_identifier_spec(tail);
            let s1 = rest(tail, name.used);
            let open = expect_spec(s1, SpecToken::Symbol('('));
            let s2 = rest(s1, open.used);
            let close = expect_spec(s2, SpecToken::Symbol(')'));
            lemma_block_gives_writable(rest(s2, close.used));
            let others = program_spec(rest(tail, first.used));
            lemma_program_gives_writable(rest(tail, first.used));
            if let Ok(fs) = others.result {
                let all = seq![func] + fs;
                assert forall|i: int| 0 <= i < all.len() implies writable_block(
                    #[trigger] all[i].block,
                ) by {
                    if i > 0 {
                        assert(all[i] == fs[i - 1]);
                    }
                }
            }
        }
    }
}

/// Every program that the grammar reads from some tokens, it reads again
/// from the tokens that the program is written as: what is parsed can be
/// written, and what is written is parsed as the same.
pub proof fn lemma_program_normal_form(s: Seq<SpecToken>)
    ensures
        program_spec(s).result matches Ok(p) ==> program_spec(program_tokens(p)) == done(
            p,
            program_tokens(p).len(),
        ),
{
    lemma_program_gives_writable(s);
    if let Ok(p) = program_spec(s).result {
        lemma_program_reads_back(p);
    }
}

} // verus!
