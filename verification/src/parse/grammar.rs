//! The grammar of the language, as mathematical functions from a token
//! sequence to a syntax tree or a failure.
//!
//! ```text
//! program    := function*
//! function   := "func" identifier "(" ")" block
//! block      := statement* "end"
//! statement  := "return" expr
//!             | "drop" expr
//!             | "if" expr "then" block
//! expr       := term (("+" term) | ("-" term))*
//! term       := factor (("*" factor) | ("/" factor))*
//! factor     := "(" expr ")" | "-" factor | "not" factor
//!             | number | string | "true" | "false" | "null"
//! ```
//!
//! Each non-terminal is one function. It reads from the front of the
//! sequence it is given and says what it found and how many tokens it took,
//! on success and on failure alike. The first failure ends the parse.

use super::tokens::{Keyword, SpecToken};
use vstd::prelude::*;

verus! {

/// The mathematical value of an expression tree.
pub enum SpecExpression {
    Number(Seq<char>),
    String(Seq<char>),
    Boolean(bool),
    Null,
    Neg(Box<SpecExpression>),
    Add(Box<SpecExpression>, Box<SpecExpression>),
    Sub(Box<SpecExpression>, Box<SpecExpression>),
    Mul(Box<SpecExpression>, Box<SpecExpression>),
    Div(Box<SpecExpression>, Box<SpecExpression>),
    Join(Box<SpecExpression>, Box<SpecExpression>),
    Not(Box<SpecExpression>),
    And(Box<SpecExpression>, Box<SpecExpression>),
    Or(Box<SpecExpression>, Box<SpecExpression>),
}

/// The mathematical value of a statement. A block is the sequence of its
/// statements.
pub enum SpecStatement {
    Drop(SpecExpression),
    Return(SpecExpression),
    Do(Seq<SpecStatement>),
    If(SpecExpression, Seq<SpecStatement>),
    While(SpecExpression, Seq<SpecStatement>),
}

/// The mathematical value of a function definition.
pub struct SpecFunc {
    pub id: Seq<char>,
    pub block: Seq<SpecStatement>,
}

/// Why a parse failed.
pub enum Failure {
    /// The tokens ended where one more was needed.
    UnexpectedEof,
    /// A token stands where the grammar asks for another one.
    UnexpectedToken(SpecToken),
    /// A token stands where a statement or `end` has to begin.
    ExpectedStatement(SpecToken),
    /// A token other than `func` stands at the top level.
    UnexpectedTopLevel(SpecToken),
}

impl Failure {
    /// The message that reports the failure.
    pub open spec fn message(self) -> Seq<char> {
        match self {
            Failure::UnexpectedEof => "unexpected eof"@,
            Failure::UnexpectedToken(t) => "unexpected "@ + t.text(),
            Failure::ExpectedStatement(t) => "expected statement, got \""@ + t.text() + "\""@,
            Failure::UnexpectedTopLevel(t) => "unexpected "@ + t.kind_name() + " \""@ + t.text()
                + "\""@,
        }
    }
}

/// What one non-terminal made of the front of a token sequence: the tree
/// or the failure, and the number of tokens that it took. On a failure the
/// count includes the token that was refused.
pub struct Outcome<T> {
    pub result: Result<T, Failure>,
    pub used: nat,
}

impl<T> Outcome<T> {
    /// The outcome of a step that follows `n` tokens already taken.
    pub open spec fn after(self, n: nat) -> Outcome<T> {
        Outcome { result: self.result, used: n + self.used }
    }
}

/// The success with value `value` after `used` tokens.
pub open spec fn done<T>(value: T, used: nat) -> Outcome<T> {
    Outcome { result: Ok(value), used }
}

/// The failure `failure` after `used` tokens.
pub open spec fn failed<T>(failure: Failure, used: nat) -> Outcome<T> {
    Outcome { result: Err(failure), used }
}

/// What is left of `s` when `n` tokens are taken from its front.
pub open spec fn rest(s: Seq<SpecToken>, n: nat) -> Seq<SpecToken> {
    if n <= s.len() {
        s.skip(n as int)
    } else {
        Seq::empty()
    }
}

/// Takes one token, which has to be `want`.
pub open spec fn expect_spec(s: Seq<SpecToken>, want: SpecToken) -> Outcome<()> {
    if s.len() == 0 {
        failed(Failure::UnexpectedEof, 0)
    } else if s[0] == want {
        done((), 1)
    } else {
        failed(Failure::UnexpectedToken(s[0]), 1)
    }
}

/// Takes one token, which has to be an identifier, and gives its name.
pub open spec fn expect_identifier_spec(s: Seq<SpecToken>) -> Outcome<Seq<char>> {
    if s.len() == 0 {
        failed(Failure::UnexpectedEof, 0)
    } else {
        match s[0] {
            SpecToken::Identifier(name) => done(name, 1),
            _ => failed(Failure::UnexpectedToken(s[0]), 1),
        }
    }
}

/// `factor := "(" expr ")" | "-" factor | "not" factor | literal`
pub open spec fn factor_spec(s: Seq<SpecToken>) -> Outcome<SpecExpression>
    decreases s.len(), 0nat,
{
    if s.len() == 0 {
        failed(Failure::UnexpectedEof, 0)
    } else {
        let tail = s.skip(1);
        match s[0] {
            SpecToken::Symbol('(') => {
                let inner = expr_spec(tail);
                match inner.result {
                    Err(f) => failed(f, 1 + inner.used),
                    Ok(e) => {
                        let close = expect_spec(rest(tail, inner.used), SpecToken::Symbol(')'));
                        match close.result {
                            Err(f) => failed(f, 1 + inner.used + close.used),
                            Ok(_) => done(e, 1 + inner.used + close.used),
                        }
                    },
                }
            },
            SpecToken::Symbol('-') => {
                let operand = factor_spec(tail);
                match operand.result {
                    Err(f) => failed(f, 1 + operand.used),
                    Ok(e) => done(SpecExpression::Neg(Box::new(e)), 1 + operand.used),
                }
            },
            SpecToken::Keyword(Keyword::Not) => {
                let operand = factor_spec(tail);
                match operand.result {
                    Err(f) => failed(f, 1 + operand.used),
                    Ok(e) => done(SpecExpression::Not(Box::new(e)), 1 + operand.used),
                }
            },
            SpecToken::Number(n) => done(SpecExpression::Number(n), 1),
            SpecToken::String(t) => done(SpecExpression::String(t), 1),
            SpecToken::Keyword(Keyword::True) => done(SpecExpression::Boolean(true), 1),
            SpecToken::Keyword(Keyword::False) => done(SpecExpression::Boolean(false), 1),
            SpecToken::Keyword(Keyword::Null) => done(SpecExpression::Null, 1),
            _ => failed(Failure::UnexpectedToken(s[0]), 1),
        }
    }
}

/// The repetition `(("*" factor) | ("/" factor))*` after a term that has
/// the value `left` so far: each further operand becomes the right child
/// of a new node whose left child is all that came before.
pub open spec fn term_tail_spec(left: SpecExpression, s: Seq<SpecToken>) -> Outcome<SpecExpression>
    decreases s.len(), 1nat,
{
    if s.len() > 0 && (s[0] == SpecToken::Symbol('*') || s[0] == SpecToken::Symbol('/')) {
        let tail = s.skip(1);
        let right = factor_spec(tail);
        match right.result {
            Err(f) => failed(f, 1 + right.used),
            Ok(e) => {
                let node = if s[0] == SpecToken::Symbol('*') {
                    SpecExpression::Mul(Box::new(left), Box::new(e))
                } else {
                    SpecExpression::Div(Box::new(left), Box::new(e))
                };
                term_tail_spec(node, rest(tail, right.used)).after(1 + right.used)
            },
        }
    } else {
        done(left, 0)
    }
}

/// `term := factor (("*" factor) | ("/" factor))*`
pub open spec fn term_spec(s: Seq<SpecToken>) -> Outcome<SpecExpression>
    decreases s.len(), 2nat,
{
    let first = factor_spec(s);
    match first.result {
        Err(f) => failed(f, first.used),
        Ok(e) => term_tail_spec(e, rest(s, first.used)).after(first.used),
    }
}

/// The repetition `(("+" term) | ("-" term))*` after an expression that
/// has the value `left` so far.
pub open spec fn expr_tail_spec(left: SpecExpression, s: Seq<SpecToken>) -> Outcome<SpecExpression>
    decreases s.len(), 3nat,
{
    if s.len() > 0 && (s[0] == SpecToken::Symbol('+') || s[0] == SpecToken::Symbol('-')) {
        let tail = s.skip(1);
        let right = term_spec(tail);
        match right.result {
            Err(f) => failed(f, 1 + right.used),
            Ok(e) => {
                let node = if s[0] == SpecToken::Symbol('+') {
                    SpecExpression::Add(Box::new(left), Box::new(e))
                } else {
                    SpecExpression::Sub(Box::new(left), Box::new(e))
                };
                expr_tail_spec(node, rest(tail, right.used)).after(1 + right.used)
            },
        }
    } else {
        done(left, 0)
    }
}

/// `expr := term (("+" term) | ("-" term))*`
pub open spec fn expr_spec(s: Seq<SpecToken>) -> Outcome<SpecExpression>
    decreases s.len(), 4nat,
{
    let first = term_spec(s);
    match first.result {
        Err(f) => failed(f, first.used),
        Ok(e) => expr_tail_spec(e, rest(s, first.used)).after(first.used),
    }
}

/// The outcome of a repetition whose first items are `before`, read with
/// `used` tokens, and whose other items gave `others`: all the items in
/// order, or the failure of the others.
pub open spec fn preceded<T>(before: Seq<T>, used: nat, others: Outcome<Seq<T>>) -> Outcome<
    Seq<T>,
> {
    match others.result {
        Err(f) => failed(f, used + others.used),
        Ok(items) => done(before + items, used + others.used),
    }
}

/// `statement := "return" expr | "drop" expr | "if" expr "then" block`,
/// for a statement whose first token is `first` and that goes on in `s`.
/// The count is of the tokens taken from `s`.
pub open spec fn statement_spec(first: SpecToken, s: Seq<SpecToken>) -> Outcome<SpecStatement>
    decreases s.len(), 0nat,
{
    match first {
        SpecToken::Keyword(Keyword::Return) => {
            let value = expr_spec(s);
            match value.result {
                Err(f) => failed(f, value.used),
                Ok(e) => done(SpecStatement::Return(e), value.used),
            }
        },
        SpecToken::Keyword(Keyword::Drop) => {
            let value = expr_spec(s);
            match value.result {
                Err(f) => failed(f, value.used),
                Ok(e) => done(SpecStatement::Drop(e), value.used),
            }
        },
        SpecToken::Keyword(Keyword::If) => {
            let cond = expr_spec(s);
            match cond.result {
                Err(f) => failed(f, cond.used),
                Ok(c) => {
                    let after_cond = rest(s, cond.used);
                    let marker = expect_spec(after_cond, SpecToken::Keyword(Keyword::Then));
                    match marker.result {
                        Err(f) => failed(f, cond.used + marker.used),
                        Ok(_) => {
                            let body = block_spec(rest(after_cond, marker.used));
                            match body.result {
                                Err(f) => failed(f, cond.used + marker.used + body.used),
                                Ok(b) => done(
                                    SpecStatement::If(c, b),
                                    cond.used + marker.used + body.used,
                                ),
                            }
                        },
                    }
                },
            }
        },
        _ => failed(Failure::ExpectedStatement(first), 0),
    }
}

/// `block := statement* "end"`
pub open spec fn block_spec(s: Seq<SpecToken>) -> Outcome<Seq<SpecStatement>>
    decreases s.len(), 1nat,
{
    if s.len() == 0 {
        failed(Failure::UnexpectedEof, 0)
    } else if s[0] == SpecToken::Keyword(Keyword::End) {
        done(Seq::empty(), 1)
    } else {
        let tail = s.skip(1);
        let first = statement_spec(s[0], tail);
        match first.result {
            Err(f) => failed(f, 1 + first.used),
            Ok(stmt) => preceded(seq![stmt], 1 + first.used, block_spec(rest(tail, first.used))),
        }
    }
}

/// `function := "func" identifier "(" ")" block`, after the `func`.
pub open spec fn function_spec(s: Seq<SpecToken>) -> Outcome<SpecFunc> {
    let name = expect_identifier_spec(s);
    match name.result {
        Err(f) => failed(f, name.used),
        Ok(id) => {
            let s1 = rest(s, name.used);
            let open = expect_spec(s1, SpecToken::Symbol('('));
            match open.result {
                Err(f) => failed(f, name.used + open.used),
                Ok(_) => {
                    let s2 = rest(s1, open.used);
                    let close = expect_spec(s2, SpecToken::Symbol(')'));
                    match close.result {
                        Err(f) => failed(f, name.used + open.used + close.used),
                        Ok(_) => {
                            let s3 = rest(s2, close.used);
                            let body = block_spec(s3);
                            match body.result {
                                Err(f) => failed(f, name.used + open.used + close.used + body.used),
                                Ok(block) => done(
                                    SpecFunc { id, block },
                                    name.used + open.used + close.used + body.used,
                                ),
                            }
                        },
                    }
                },
            }
        },
    }
}

/// `program := function*`, up to the end of the tokens.
pub open spec fn program_spec(s: Seq<SpecToken>) -> Outcome<Seq<SpecFunc>>
    decreases s.len(),
{
    if s.len() == 0 {
        done(Seq::empty(), 0)
    } else if s[0] == SpecToken::Keyword(Keyword::Func) {
        let tail = s.skip(1);
        let first = function_spec(tail);
        match first.result {
            Err(f) => failed(f, 1 + first.used),
            Ok(func) => preceded(
                seq![func],
                1 + first.used,
                program_spec(rest(tail, first.used)),
            ),
        }
    } else {
        failed(Failure::UnexpectedTopLevel(s[0]), 1)
    }
}

/// Items read first and items read next are, together, items read first.
pub proof fn lemma_preceded_twice<T>(
    a: Seq<T>,
    m: nat,
    b: Seq<T>,
    n: nat,
    others: Outcome<Seq<T>>,
)
    ensures
        preceded(a, m, preceded(b, n, others)) == preceded(a + b, m + n, others),
        preceded(Seq::empty(), 0, others) == others,
{
    match others.result {
        Err(_) => {},
        Ok(items) => {
            assert(a + (b + items) =~= (a + b) + items);
            assert(Seq::<T>::empty() + items =~= items);
        },
    }
}

/// A factor takes no more tokens than there are, and at least one where
/// it succeeds.
pub proof fn lemma_factor_used(s: Seq<SpecToken>)
    ensures
        factor_spec(s).used <= s.len(),
        factor_spec(s).result is Ok ==> factor_spec(s).used >= 1,
    decreases s.len(), 0nat,
{
    if s.len() > 0 {
        let tail = s.skip(1);
        match s[0] {
            SpecToken::Symbol('(') => {
                lemma_expr_used(tail);
            },
            SpecToken::Symbol('-') => {
                lemma_factor_used(tail);
            },
            SpecToken::Keyword(Keyword::Not) => {
                lemma_factor_used(tail);
            },
            _ => {},
        }
    }
}

/// The repetition after a term takes no more tokens than there are.
pub proof fn lemma_term_tail_used(left: SpecExpression, s: Seq<SpecToken>)
    ensures
        term_tail_spec(left, s).used <= s.len(),
    decreases s.len(), 1nat,
{
    if s.len() > 0 && (s[0] == SpecToken::Symbol('*') || s[0] == SpecToken::Symbol('/')) {
        let tail = s.skip(1);
        let right = factor_spec(tail);
        lemma_factor_used(tail);
        match right.result {
            Err(_) => {},
            Ok(e) => {
                let node = if s[0] == SpecToken::Symbol('*') {
                    SpecExpression::Mul(Box::new(left), Box::new(e))
                } else {
                    SpecExpression::Div(Box::new(left), Box::new(e))
                };
                lemma_term_tail_used(node, rest(tail, right.used));
            },
        }
    }
}

/// A term takes no more tokens than there are, and at least one where it
/// succeeds.
pub proof fn lemma_term_used(s: Seq<SpecToken>)
    ensures
        term_spec(s).used <= s.len(),
        term_spec(s).result is Ok ==> term_spec(s).used >= 1,
    decreases s.len(), 2nat,
{
    let first = factor_spec(s);
    lemma_factor_used(s);
    match first.result {
        Err(_) => {},
        Ok(e) => {
            lemma_term_tail_used(e, rest(s, first.used));
        },
    }
}

/// The repetition after an expression takes no more tokens than there are.
pub proof fn lemma_expr_tail_used(left: SpecExpression, s: Seq<SpecToken>)
    ensures
        expr_tail_spec(left, s).used <= s.len(),
    decreases s.len(), 3nat,
{
    if s.len() > 0 && (s[0] == SpecToken::Symbol('+') || s[0] == SpecToken::Symbol('-')) {
        let tail = s.skip(1);
        let right = term_spec(tail);
        lemma_term_used(tail);
        match right.result {
            Err(_) => {},
            Ok(e) => {
                let node = if s[0] == SpecToken::Symbol('+') {
                    SpecExpression::Add(Box::new(left), Box::new(e))
                } else {
                    SpecExpression::Sub(Box::new(left), Box::new(e))
                };
                lemma_expr_tail_used(node, rest(tail, right.used));
            },
        }
    }
}

/// An expression takes no more tokens than there are, and at least one
/// where it succeeds.
pub proof fn lemma_expr_used(s: Seq<SpecToken>)
    ensures
        expr_spec(s).used <= s.len(),
        expr_spec(s).result is Ok ==> expr_spec(s).used >= 1,
    decreases s.len(), 4nat,
{
    let first = term_spec(s);
    lemma_term_used(s);
    match first.result {
        Err(_) => {},
        Ok(e) => {
            lemma_expr_tail_used(e, rest(s, first.used));
        },
    }
}

/// A statement takes no more tokens than there are.
pub proof fn lemma_statement_used(first: SpecToken, s: Seq<SpecToken>)
    ensures
        statement_spec(first, s).used <= s.len(),
    decreases s.len(), 0nat,
{
    match first {
        SpecToken::Keyword(Keyword::Return) | SpecToken::Keyword(Keyword::Drop) => {
            lemma_expr_used(s);
        },
        SpecToken::Keyword(Keyword::If) => {
            let cond = expr_spec(s);
            lemma_expr_used(s);
            if cond.result is Ok {
                let after_cond = rest(s, cond.used);
                let marker = expect_spec(after_cond, SpecToken::Keyword(Keyword::Then));
                if marker.result is Ok {
                    lemma_block_used(rest(after_cond, marker.used));
                }
            }
        },
        _ => {},
    }
}

/// A block takes no more tokens than there are, and at least one where it
/// succeeds.
pub proof fn lemma_block_used(s: Seq<SpecToken>)
    ensures
        block_spec(s).used <= s.len(),
        block_spec(s).result is Ok ==> block_spec(s).used >= 1,
    decreases s.len(), 1nat,
{
    if s.len() > 0 && s[0] != SpecToken::Keyword(Keyword::End) {
        let tail = s.skip(1);
        let first = statement_spec(s[0], tail);
        lemma_statement_used(s[0], tail);
        if first.result is Ok {
            lemma_block_used(rest(tail, first.used));
        }
    }
}

/// A function definition takes no more tokens than there are.
pub proof fn lemma_function_used(s: Seq<SpecToken>)
    ensures
        function_spec(s).used <= s.len(),
{
    let name = expect_identifier_spec(s);
    if name.result is Ok {
        let s1 = rest(s, name.used);
        let open = expect_spec(s1, SpecToken::Symbol('('));
        if open.result is Ok {
            let s2 = rest(s1, open.used);
            let close = expect_spec(s2, SpecToken::Symbol(')'));
            if close.result is Ok {
                lemma_block_used(rest(s2, close.used));
            }
        }
    }
}

/// A program takes no more tokens than there are, and all of them where
/// it succeeds.
pub proof fn lemma_program_used(s: Seq<SpecToken>)
    ensures
        program_spec(s).used <= s.len(),
        program_spec(s).result is Ok ==> program_spec(s).used == s.len(),
    decreases s.len(),
{
    if s.len() > 0 && s[0] == SpecToken::Keyword(Keyword::Func) {
        let tail = s.skip(1);
        let first = function_spec(tail);
        lemma_function_used(tail);
        if first.result is Ok {
            lemma_program_used(rest(tail, first.used));
        }
    }
}

} // verus!
