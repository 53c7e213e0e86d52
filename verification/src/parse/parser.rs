//! The syntax tree and the recursive-descent parser that builds it from a
//! queue of tokens.

use super::grammar::{
    block_spec, expect_identifier_spec, expect_spec, expr_spec, expr_tail_spec, factor_spec,
    function_spec, lemma_factor_used, lemma_preceded_twice, lemma_program_used, lemma_term_used,
    preceded, program_spec, rest, statement_spec, term_spec, term_tail_spec, Failure, Outcome,
    SpecExpression, SpecFunc, SpecStatement,
};
use super::tokens::{Keyword, SpecToken, Token};
use std::collections::VecDeque;
use vstd::prelude::*;
use vstd::string::StringExecFns;

verus! {

/// An expression tree. Each node owns its operands.
///
/// A number holds the text of its literal, as the token did.
#[derive(Debug, PartialEq, Eq)]
pub enum AstExpression {
    Number(String),
    String(String),
    Boolean(bool),
    Null,
    Neg(Box<AstExpression>),
    Add(Box<AstExpression>, Box<AstExpression>),
    Sub(Box<AstExpression>, Box<AstExpression>),
    Mul(Box<AstExpression>, Box<AstExpression>),
    Div(Box<AstExpression>, Box<AstExpression>),
    Join(Box<AstExpression>, Box<AstExpression>),
    Not(Box<AstExpression>),
    And(Box<AstExpression>, Box<AstExpression>),
    Or(Box<AstExpression>, Box<AstExpression>),
}

/// A statement.
#[derive(Debug, PartialEq, Eq)]
pub enum AstStatement {
    Drop(AstExpression),
    Return(AstExpression),
    Do(AstBlock),
    If(AstExpression, AstBlock),
    While(AstExpression, AstBlock),
}

/// A block: its statements in the order in which they run.
#[derive(Debug, PartialEq, Eq)]
pub struct AstBlock {
    pub statements: Vec<AstStatement>,
}

/// A function definition.
#[derive(Debug, PartialEq, Eq)]
pub struct AstFunc {
    pub id: String,
    pub block: AstBlock,
}

/// A program: its functions in the order in which the source declares them.
#[derive(Debug, PartialEq, Eq)]
pub struct AstProgram {
    pub functions: Vec<AstFunc>,
}

/// The failure of a parse, as a message.
#[derive(Debug, PartialEq, Eq)]
pub struct ParseError {
    pub msg: String,
}

impl View for AstExpression {
    type V = SpecExpression;

    open spec fn view(&self) -> SpecExpression
        decreases self,
    {
        match self {
            AstExpression::Number(n) => SpecExpression::Number(n@),
            AstExpression::String(t) => SpecExpression::String(t@),
            AstExpression::Boolean(b) => SpecExpression::Boolean(*b),
            AstExpression::Null => SpecExpression::Null,
            AstExpression::Neg(e) => SpecExpression::Neg(Box::new((**e).view())),
            AstExpression::Add(l, r) => SpecExpression::Add(
                Box::new((**l).view()),
                Box::new((**r).view()),
            ),
            AstExpression::Sub(l, r) => SpecExpression::Sub(
                Box::new((**l).view()),
                Box::new((**r).view()),
            ),
            AstExpression::Mul(l, r) => SpecExpression::Mul(
                Box::new((**l).view()),
                Box::new((**r).view()),
            ),
            AstExpression::Div(l, r) => SpecExpression::Div(
                Box::new((**l).view()),
                Box::new((**r).view()),
            ),
            AstExpression::Join(l, r) => SpecExpression::Join(
                Box::new((**l).view()),
                Box::new((**r).view()),
            ),
            AstExpression::Not(e) => SpecExpression::Not(Box::new((**e).view())),
            AstExpression::And(l, r) => SpecExpression::And(
                Box::new((**l).view()),
                Box::new((**r).view()),
            ),
            AstExpression::Or(l, r) => SpecExpression::Or(
                Box::new((**l).view()),
                Box::new((**r).view()),
            ),
        }
    }
}

impl View for AstStatement {
    type V = SpecStatement;

    open spec fn view(&self) -> SpecStatement
        decreases self,
    {
        match self {
            AstStatement::Drop(e) => SpecStatement::Drop(e@),
            AstStatement::Return(e) => SpecStatement::Return(e@),
            AstStatement::Do(b) => SpecStatement::Do(b.view()),
            AstStatement::If(c, b) => SpecStatement::If(c@, b.view()),
            AstStatement::While(c, b) => SpecStatement::While(c@, b.view()),
        }
    }
}

impl View for AstBlock {
    type V = Seq<SpecStatement>;

    open spec fn view(&self) -> Seq<SpecStatement>
        decreases self,
    {
        Seq::new(
            self.statements.len() as nat,
            |i: int|
                if 0 <= i < self.statements.len() {
                    self.statements[i].view()
                } else {
                    arbitrary()
                },
        )
    }
}

impl View for AstFunc {
    type V = SpecFunc;

    open spec fn view(&self) -> SpecFunc {
        SpecFunc { id: self.id@, block: self.block@ }
    }
}

impl View for AstProgram {
    type V = Seq<SpecFunc>;

    open spec fn view(&self) -> Seq<SpecFunc> {
        Seq::new(self.functions@.len(), |i: int| self.functions@[i]@)
    }
}

impl View for ParseError {
    type V = Seq<char>;

    open spec fn view(&self) -> Seq<char> {
        self.msg@
    }
}

impl ParseError {
    /// The error with the message `msg`.
    pub fn new(msg: String) -> (r: Self)
        ensures
            r.msg == msg,
    {
        ParseError { msg }
    }
}

/// Whether the result `r` of a parsing function is what the grammar gives
/// as `o`: on success the tree that `r` holds has the value that `o` holds,
/// on failure the message of `r` is that of the failure in `o`.
pub open spec fn agrees<T: View>(r: Result<T, ParseError>, o: Outcome<T::V>) -> bool {
    match (r, o.result) {
        (Ok(v), Ok(x)) => v@ == x,
        (Err(e), Err(f)) => e@ == f.message(),
        _ => false,
    }
}

/// What a parsing function does: its result `r` is what the grammar makes
/// of the queue `before`, and the queue `after` is `before` without the
/// tokens that the grammar took from its front.
pub open spec fn parsed<T: View>(
    r: Result<T, ParseError>,
    before: Seq<SpecToken>,
    after: Seq<SpecToken>,
    o: Outcome<T::V>,
) -> bool {
    &&& agrees(r, o)
    &&& o.used <= before.len()
    &&& after =~= before.skip(o.used as int)
}

/// Takes the token at the front of the queue, if there is one.
fn next_token(tokens: &mut VecDeque<Token>) -> (r: Option<Token>)
    ensures
        match r {
            Some(t) => {
                &&& old(tokens).deep_view().len() > 0
                &&& t@ == old(tokens).deep_view()[0]
                &&& final(tokens).deep_view() == old(tokens).deep_view().skip(1)
            },
            None => {
                &&& old(tokens).deep_view().len() == 0
                &&& final(tokens).deep_view() == old(tokens).deep_view()
            },
        },
{
    let r = tokens.pop_front();
    assert(r is Some ==> tokens.deep_view() =~= old(tokens).deep_view().skip(1));
    assert(r is None ==> tokens.deep_view() =~= old(tokens).deep_view());
    r
}

/// The symbol at the front of the queue, if a symbol stands there. The
/// queue stays as it is.
fn peek_symbol(tokens: &VecDeque<Token>) -> (r: Option<char>)
    ensures
        r == if tokens.deep_view().len() > 0 {
            match tokens.deep_view()[0] {
                SpecToken::Symbol(c) => Some(c),
                _ => None,
            }
        } else {
            None
        },
{
    if tokens.len() > 0 {
        match &tokens[0] {
            Token::Symbol(c) => Some(*c),
            _ => None,
        }
    } else {
        None
    }
}

/// The error for tokens that end too early.
fn unexpected_eof() -> (r: ParseError)
    ensures
        r@ == Failure::UnexpectedEof.message(),
{
    ParseError::new("unexpected eof".to_owned())
}

/// The error for a token that stands where another is needed.
fn unexpected_token(tok: &Token) -> (r: ParseError)
    ensures
        r@ == Failure::UnexpectedToken(tok@).message(),
{
    let mut msg = "unexpected ".to_owned();
    msg.append(tok.to_string().as_str());
    ParseError::new(msg)
}

/// The error for a token that begins no statement.
fn expected_statement(tok: &Token) -> (r: ParseError)
    ensures
        r@ == Failure::ExpectedStatement(tok@).message(),
{
    let mut msg = "expected statement, got \"".to_owned();
    msg.append(tok.to_string().as_str());
    msg.append("\"");
    ParseError::new(msg)
}

/// The error for a token that begins no function.
fn unexpected_top_level(tok: &Token) -> (r: ParseError)
    ensures
        r@ == Failure::UnexpectedTopLevel(tok@).message(),
{
    let mut msg = "unexpected ".to_owned();
    msg.append(tok.typestr());
    msg.append(" \"");
    msg.append(tok.to_string().as_str());
    msg.append("\"");
    ParseError::new(msg)
}

/// Takes one token off the queue, which has to be `want`. This is the one
/// check that every place of the grammar with a mandatory token goes
/// through.
pub fn expect(tokens: &mut VecDeque<Token>, want: &Token) -> (r: Result<(), ParseError>)
    ensures
        parsed(
            r,
            old(tokens).deep_view(),
            final(tokens).deep_view(),
            expect_spec(old(tokens).deep_view(), want@),
        ),
{
    match next_token(tokens) {
        None => Err(unexpected_eof()),
        Some(tok) => {
            if tok.same_as(want) {
                Ok(())
            } else {
                Err(unexpected_token(&tok))
            }
        },
    }
}

/// Takes one token off the queue, which has to be an identifier, and gives
/// its name.
pub fn expect_identifier(tokens: &mut VecDeque<Token>) -> (r: Result<String, ParseError>)
    ensures
        parsed(
            r,
            old(tokens).deep_view(),
            final(tokens).deep_view(),
            expect_identifier_spec(old(tokens).deep_view()),
        ),
{
    match next_token(tokens) {
        None => Err(unexpected_eof()),
        Some(tok) => match tok {
            Token::Identifier(name) => Ok(name),
            other => Err(unexpected_token(&other)),
        },
    }
}

/// Parses one factor from the front of the queue: a parenthesised
/// expression, a negation, a `not`, or a literal.
pub fn parse_factor(tokens: &mut VecDeque<Token>) -> (r: Result<AstExpression, ParseError>)
    ensures
        parsed(
            r,
            old(tokens).deep_view(),
            final(tokens).deep_view(),
            factor_spec(old(tokens).deep_view()),
        ),
    decreases old(tokens).deep_view().len(), 0nat,
{
    match next_token(tokens) {
        None => Err(unexpected_eof()),
        Some(tok) => match tok {
            Token::Symbol('(') => {
                let exp = parse_expr(tokens)?;
                expect(tokens, &Token::Symbol(')'))?;
                Ok(exp)
            },
            Token::Symbol('-') => {
                let operand = parse_factor(tokens)?;
                Ok(AstExpression::Neg(Box::new(operand)))
            },
            Token::Keyword(Keyword::Not) => {
                let operand = parse_factor(tokens)?;
                Ok(AstExpression::Not(Box::new(operand)))
            },
            Token::Number(num) => Ok(AstExpression::Number(num)),
            Token::String(string) => Ok(AstExpression::String(string)),
            Token::Keyword(Keyword::True) => Ok(AstExpression::Boolean(true)),
            Token::Keyword(Keyword::False) => Ok(AstExpression::Boolean(false)),
            Token::Keyword(Keyword::Null) => Ok(AstExpression::Null),
            other => Err(unexpected_token(&other)),
        },
    }
}

/// Parses one term from the front of the queue: factors joined by `*` and
/// `/`, grouped from the left.
pub fn parse_term(tokens: &mut VecDeque<Token>) -> (r: Result<AstExpression, ParseError>)
    ensures
        parsed(
            r,
            old(tokens).deep_view(),
            final(tokens).deep_view(),
            term_spec(old(tokens).deep_view()),
        ),
    decreases old(tokens).deep_view().len(), 2nat,
{
    let ghost all = tokens.deep_view();
    let mut factor = parse_factor(tokens)?;
    let ghost mut used: nat = factor_spec(all).used;
    proof {
        lemma_factor_used(all);
    }
    loop
        invariant
            all == old(tokens).deep_view(),
            1 <= used <= all.len(),
            tokens.deep_view() == all.skip(used as int),
            term_spec(all) == term_tail_spec(factor@, tokens.deep_view()).after(used),
        ensures
            parsed(
                Ok::<AstExpression, ParseError>(factor),
                all,
                tokens.deep_view(),
                term_spec(all),
            ),
        decreases tokens.deep_view().len(),
    {
        let ghost here = tokens.deep_view();
        let ghost tail = here.skip(1);
        let ghost left = factor@;
        let op = match peek_symbol(tokens) {
            Some('*') => '*',
            Some('/') => '/',
            _ => {
                break ;
            },
        };
        let _ = next_token(tokens);
        let right = match parse_factor(tokens) {
            Ok(e) => e,
            Err(e) => {
                return Err(e);
            },
        };
        factor = if op == '*' {
            AstExpression::Mul(Box::new(factor), Box::new(right))
        } else {
            AstExpression::Div(Box::new(factor), Box::new(right))
        };
        proof {
            let taken = factor_spec(tail).used;
            assert(tokens.deep_view() =~= all.skip((used + 1 + taken) as int));
            assert(term_tail_spec(left, here) == term_tail_spec(factor@, rest(tail, taken)).after(
                1 + taken,
            ));
            used = used + 1 + taken;
        }
    }
    Ok(factor)
}

/// Parses one expression from the front of the queue: terms joined by `+`
/// and `-`, grouped from the left.
pub fn parse_expr(tokens: &mut VecDeque<Token>) -> (r: Result<AstExpression, ParseError>)
    ensures
        parsed(
            r,
            old(tokens).deep_view(),
            final(tokens).deep_view(),
            expr_spec(old(tokens).deep_view()),
        ),
    decreases old(tokens).deep_view().len(), 4nat,
{
    let ghost all = tokens.deep_view();
    let mut term = parse_term(tokens)?;
    let ghost mut used: nat = term_spec(all).used;
    proof {
        lemma_term_used(all);
    }
    loop
        invariant
            all == old(tokens).deep_view(),
            1 <= used <= all.len(),
            tokens.deep_view() == all.skip(used as int),
            expr_spec(all) == expr_tail_spec(term@, tokens.deep_view()).after(used),
        ensures
            parsed(
                Ok::<AstExpression, ParseError>(term),
                all,
                tokens.deep_view(),
                expr_spec(all),
            ),
        decreases tokens.deep_view().len(),
    {
        let ghost here = tokens.deep_view();
        let ghost tail = here.skip(1);
        let ghost left = term@;
        let op = match peek_symbol(tokens) {
            Some('+') => '+',
            Some('-') => '-',
            _ => {
                break ;
            },
        };
        let _ = next_token(tokens);
        let right = match parse_term(tokens) {
            Ok(e) => e,
            Err(e) => {
                return Err(e);
            },
        };
        term = if op == '+' {
            AstExpression::Add(Box::new(term), Box::new(right))
        } else {
            AstExpression::Sub(Box::new(term), Box::new(right))
        };
        proof {
            let taken = term_spec(tail).used;
            assert(tokens.deep_view() =~= all.skip((used + 1 + taken) as int));
            assert(expr_tail_spec(left, here) == expr_tail_spec(term@, rest(tail, taken)).after(
                1 + taken,
            ));
            used = used + 1 + taken;
        }
    }
    Ok(term)
}

/// The values of the statements of `v`, in order.
pub open spec fn statements_view(v: Seq<AstStatement>) -> Seq<SpecStatement> {
    Seq::new(v.len(), |i: int| v[i]@)
}

/// The values of the functions of `v`, in order.
pub open spec fn functions_view(v: Seq<AstFunc>) -> Seq<SpecFunc> {
    Seq::new(v.len(), |i: int| v[i]@)
}

/// Parses the statement that the token `first` begins and that goes on at
/// the front of the queue.
pub fn parse_statement(first: Token, tokens: &mut VecDeque<Token>) -> (r: Result<
    AstStatement,
    ParseError,
>)
    ensures
        parsed(
            r,
            old(tokens).deep_view(),
            final(tokens).deep_view(),
            statement_spec(first@, old(tokens).deep_view()),
        ),
    decreases old(tokens).deep_view().len(), 0nat,
{
    match first {
        Token::Keyword(Keyword::Return) => {
            let value = parse_expr(tokens)?;
            Ok(AstStatement::Return(value))
        },
        Token::Keyword(Keyword::Drop) => {
            let value = parse_expr(tokens)?;
            Ok(AstStatement::Drop(value))
        },
        Token::Keyword(Keyword::If) => {
            let cond = parse_expr(tokens)?;
            expect(tokens, &Token::Keyword(Keyword::Then))?;
            let block = parse_block(tokens)?;
            Ok(AstStatement::If(cond, block))
        },
        other => Err(expected_statement(&other)),
    }
}

/// Parses one block from the front of the queue: statements up to and
/// with the `end` that closes the block.
pub fn parse_block(tokens: &mut VecDeque<Token>) -> (r: Result<AstBlock, ParseError>)
    ensures
        parsed(
            r,
            old(tokens).deep_view(),
            final(tokens).deep_view(),
            block_spec(old(tokens).deep_view()),
        ),
    decreases old(tokens).deep_view().len(), 1nat,
{
    let ghost all = tokens.deep_view();
    let ghost mut used: nat = 0;
    let mut statements: Vec<AstStatement> = Vec::new();
    proof {
        lemma_preceded_twice::<SpecStatement>(
            Seq::empty(),
            0,
            Seq::empty(),
            0,
            block_spec(all),
        );
        assert(statements_view(statements@) =~= Seq::<SpecStatement>::empty());
    }
    loop
        invariant_except_break
            used <= all.len(),
            tokens.deep_view() == all.skip(used as int),
            block_spec(all) == preceded(
                statements_view(statements@),
                used,
                block_spec(tokens.deep_view()),
            ),
        invariant
            all == old(tokens).deep_view(),
        ensures
            parsed(
                Ok::<AstBlock, ParseError>(AstBlock { statements }),
                all,
                tokens.deep_view(),
                block_spec(all),
            ),
        decreases tokens.deep_view().len(),
    {
        let ghost here = tokens.deep_view();
        let ghost tail = here.skip(1);
        let ghost before = statements_view(statements@);
        let tok = match next_token(tokens) {
            Some(tok) => tok,
            None => {
                return Err(unexpected_eof());
            },
        };
        if let Token::Keyword(Keyword::End) = tok {
            proof {
                assert(before + Seq::<SpecStatement>::empty() =~= before);
                assert((AstBlock { statements })@ =~= before);
                assert(tokens.deep_view() =~= all.skip(used as int + 1));
            }
            break ;
        }
        let ghost first = tok@;
        let stmt = match parse_statement(tok, tokens) {
            Ok(stmt) => stmt,
            Err(e) => {
                return Err(e);
            },
        };
        let ghost taken = 1 + statement_spec(first, tail).used;
        let ghost item = stmt@;
        statements.push(stmt);
        proof {
            assert(statements_view(statements@) =~= before + seq![item]);
            lemma_preceded_twice(before, used, seq![item], taken, block_spec(tokens.deep_view()));
            used = used + taken;
            assert(tokens.deep_view() =~= all.skip(used as int));
        }
    }
    Ok(AstBlock { statements })
}

/// Parses what follows the `func` of a function definition: the name, an
/// empty pair of parentheses, and the body.
pub fn parse_function(tokens: &mut VecDeque<Token>) -> (r: Result<AstFunc, ParseError>)
    ensures
        parsed(
            r,
            old(tokens).deep_view(),
            final(tokens).deep_view(),
            function_spec(old(tokens).deep_view()),
        ),
{
    let id = expect_identifier(tokens)?;
    expect(tokens, &Token::Symbol('('))?;
    expect(tokens, &Token::Symbol(')'))?;
    let block = parse_block(tokens)?;
    Ok(AstFunc { id, block })
}

/// Parses a whole program: function definitions up to the end of the
/// queue. On success the queue is empty.
pub fn parse_ast(tokens: &mut VecDeque<Token>) -> (r: Result<AstProgram, ParseError>)
    ensures
        parsed(
            r,
            old(tokens).deep_view(),
            final(tokens).deep_view(),
            program_spec(old(tokens).deep_view()),
        ),
        r is Ok ==> final(tokens).deep_view().len() == 0,
{
    let ghost all = tokens.deep_view();
    let ghost mut used: nat = 0;
    let mut functions: Vec<AstFunc> = Vec::new();
    proof {
        lemma_preceded_twice::<SpecFunc>(Seq::empty(), 0, Seq::empty(), 0, program_spec(all));
        assert(functions_view(functions@) =~= Seq::<SpecFunc>::empty());
        lemma_program_used(all);
    }
    loop
        invariant
            all == old(tokens).deep_view(),
            used <= all.len(),
            tokens.deep_view() == all.skip(used as int),
            program_spec(all) == preceded(
                functions_view(functions@),
                used,
                program_spec(tokens.deep_view()),
            ),
        ensures
            parsed(
                Ok::<AstProgram, ParseError>(AstProgram { functions }),
                all,
                tokens.deep_view(),
                program_spec(all),
            ),
        decreases tokens.deep_view().len(),
    {
        let ghost here = tokens.deep_view();
        let ghost tail = here.skip(1);
        let ghost before = functions_view(functions@);
        let tok = match next_token(tokens) {
            Some(tok) => tok,
            None => {
                proof {
                    assert(before + Seq::<SpecFunc>::empty() =~= before);
                    assert((AstProgram { functions })@ =~= before);
                }
                break ;
            },
        };
        match tok {
            Token::Keyword(Keyword::Func) => {
                let func = match parse_function(tokens) {
                    Ok(f) => f,
                    Err(e) => {
                        return Err(e);
                    },
                };
                let ghost taken = 1 + function_spec(tail).used;
                let ghost item = func@;
                functions.push(func);
                proof {
                    assert(functions_view(functions@) =~= before + seq![item]);
                    lemma_preceded_twice(
                        before,
                        used,
                        seq![item],
                        taken,
                        program_spec(tokens.deep_view()),
                    );
                    used = used + taken;
                    assert(tokens.deep_view() =~= all.skip(used as int));
                }
            },
            other => {
                return Err(unexpected_top_level(&other));
            },
        }
    }
    Ok(AstProgram { functions })
}

} // verus!
