use sb3c::parse::parser::{
    expect, expect_identifier, parse_ast, parse_block, parse_expr,
    parse_factor, parse_function, parse_statement, parse_term, AstBlock, AstExpression, AstFunc,
    AstProgram, AstStatement, ParseError,
};
use sb3c::parse::tokens::{read_tokens, Keyword, Token};
use std::collections::VecDeque;

fn lex(source: &str) -> Vec<Token> {
    let mut tokens = Vec::new();
    read_tokens(&source.to_string(), &mut tokens);
    tokens
}

fn queue(source: &str) -> VecDeque<Token> {
    VecDeque::from(lex(source))
}

fn num(text: &str) -> AstExpression {
    AstExpression::Number(text.to_string())
}

fn boxed(e: AstExpression) -> Box<AstExpression> {
    Box::new(e)
}

#[test]
fn precedence_of_multiplication_over_addition() {
    let mut tokens = queue("2 + 3 * 4");
    let parsed = parse_expr(&mut tokens);
    let expected = AstExpression::Add(
        boxed(num("2")),
        boxed(AstExpression::Mul(boxed(num("3")), boxed(num("4")))),
    );
    assert_eq!(parsed, Ok(expected));
    assert!(tokens.is_empty());
    let wrong = AstExpression::Mul(
        boxed(AstExpression::Add(boxed(num("2")), boxed(num("3")))),
        boxed(num("4")),
    );
    assert_ne!(parse_expr(&mut queue("2 + 3 * 4")), Ok(wrong));
}

#[test]
fn subtraction_groups_from_the_left() {
    let parsed = parse_expr(&mut queue("8 - 3 - 2"));
    let expected = AstExpression::Sub(
        boxed(AstExpression::Sub(boxed(num("8")), boxed(num("3")))),
        boxed(num("2")),
    );
    assert_eq!(parsed, Ok(expected));
}

#[test]
fn negation_of_a_group() {
    let parsed = parse_expr(&mut queue("-(2 + 3)"));
    let expected =
        AstExpression::Neg(boxed(AstExpression::Add(boxed(num("2")), boxed(num("3")))));
    assert_eq!(parsed, Ok(expected));
}

#[test]
fn keyword_is_matched_whole() {
    assert_eq!(lex("true"), vec![Token::Keyword(Keyword::True)]);
    assert_eq!(lex("true1"), vec![Token::Identifier("true1".to_string())]);
}

#[test]
fn minimal_program() {
    let mut tokens = queue("func main ( ) return 1 end");
    let program = parse_ast(&mut tokens);
    let expected = AstProgram {
        functions: vec![AstFunc {
            id: "main".to_string(),
            block: AstBlock { statements: vec![AstStatement::Return(num("1"))] },
        }],
    };
    assert_eq!(program, Ok(expected));
    assert!(tokens.is_empty());
}

#[test]
fn missing_end_is_unexpected_eof() {
    let err = parse_ast(&mut queue("func main ( ) return 1")).unwrap_err();
    assert_eq!(err.msg, "unexpected eof");
}

#[test]
fn unknown_statement_is_named() {
    let err = parse_ast(&mut queue("func main ( ) foo end")).unwrap_err();
    assert_eq!(err.msg, "expected statement, got \"foo\"");
}

#[test]
fn nested_if() {
    let program = parse_ast(&mut queue("func f ( ) if true then return 1 end end"));
    let expected = AstProgram {
        functions: vec![AstFunc {
            id: "f".to_string(),
            block: AstBlock {
                statements: vec![AstStatement::If(
                    AstExpression::Boolean(true),
                    AstBlock { statements: vec![AstStatement::Return(num("1"))] },
                )],
            },
        }],
    };
    assert_eq!(program, Ok(expected));
}

#[test]
fn empty_function_body() {
    let program = parse_ast(&mut queue("func f ( ) end")).unwrap();
    assert_eq!(program.functions.len(), 1);
    assert_eq!(program.functions[0].id, "f");
    assert!(program.functions[0].block.statements.is_empty());
}

fn text(t: &str) -> AstExpression {
    AstExpression::String(t.to_string())
}

fn add(l: AstExpression, r: AstExpression) -> AstExpression {
    AstExpression::Add(boxed(l), boxed(r))
}

fn sub(l: AstExpression, r: AstExpression) -> AstExpression {
    AstExpression::Sub(boxed(l), boxed(r))
}

fn mul(l: AstExpression, r: AstExpression) -> AstExpression {
    AstExpression::Mul(boxed(l), boxed(r))
}

fn div(l: AstExpression, r: AstExpression) -> AstExpression {
    AstExpression::Div(boxed(l), boxed(r))
}

fn neg(e: AstExpression) -> AstExpression {
    AstExpression::Neg(boxed(e))
}

fn not(e: AstExpression) -> AstExpression {
    AstExpression::Not(boxed(e))
}

fn expr(source: &str) -> Result<AstExpression, ParseError> {
    parse_expr(&mut queue(source))
}

fn expr_error(source: &str) -> String {
    expr(source).unwrap_err().msg
}

fn program_error(source: &str) -> String {
    parse_ast(&mut queue(source)).unwrap_err().msg
}

#[test]
fn literals_are_factors() {
    assert_eq!(expr("1"), Ok(num("1")));
    assert_eq!(expr("3.4.5"), Ok(num("3.4.5")));
    assert_eq!(expr("\"a b\""), Ok(text("a b")));
    assert_eq!(expr("true"), Ok(AstExpression::Boolean(true)));
    assert_eq!(expr("false"), Ok(AstExpression::Boolean(false)));
    assert_eq!(expr("null"), Ok(AstExpression::Null));
}

#[test]
fn division_and_multiplication_group_from_the_left() {
    assert_eq!(expr("8 / 4 / 2"), Ok(div(div(num("8"), num("4")), num("2"))));
    assert_eq!(expr("8 / 4 * 2"), Ok(mul(div(num("8"), num("4")), num("2"))));
    assert_eq!(expr("8 * 4 / 2"), Ok(div(mul(num("8"), num("4")), num("2"))));
}

#[test]
fn addition_and_subtraction_group_from_the_left() {
    assert_eq!(expr("1 + 2 + 3"), Ok(add(add(num("1"), num("2")), num("3"))));
    assert_eq!(expr("1 - 2 + 3"), Ok(add(sub(num("1"), num("2")), num("3"))));
    assert_eq!(expr("1 + 2 - 3"), Ok(sub(add(num("1"), num("2")), num("3"))));
}

#[test]
fn products_bind_tighter_on_both_sides() {
    assert_eq!(expr("2 * 3 + 4"), Ok(add(mul(num("2"), num("3")), num("4"))));
    assert_eq!(
        expr("1 * 2 + 3 / 4 - 5"),
        Ok(sub(add(mul(num("1"), num("2")), div(num("3"), num("4"))), num("5")))
    );
}

#[test]
fn parentheses_group() {
    assert_eq!(expr("(2 + 3) * 4"), Ok(mul(add(num("2"), num("3")), num("4"))));
    assert_eq!(expr("2 * (3 + 4)"), Ok(mul(num("2"), add(num("3"), num("4")))));
    assert_eq!(expr("8 - (3 - 2)"), Ok(sub(num("8"), sub(num("3"), num("2")))));
    assert_eq!(expr("((1))"), Ok(num("1")));
    assert_eq!(expr("(((1) + ((2))))"), Ok(add(num("1"), num("2"))));
}

#[test]
fn signs_bind_tightest() {
    assert_eq!(expr("-1"), Ok(neg(num("1"))));
    assert_eq!(expr("- - 1"), Ok(neg(neg(num("1")))));
    assert_eq!(expr("-2 * 3"), Ok(mul(neg(num("2")), num("3"))));
    assert_eq!(expr("2 - -3"), Ok(sub(num("2"), neg(num("3")))));
    assert_eq!(expr("2 * -3"), Ok(mul(num("2"), neg(num("3")))));
    assert_eq!(expr("not true"), Ok(not(AstExpression::Boolean(true))));
    assert_eq!(expr("not not null"), Ok(not(not(AstExpression::Null))));
    assert_eq!(expr("not -1 + 2"), Ok(add(not(neg(num("1"))), num("2"))));
    assert_eq!(expr("-not(1)"), Ok(neg(not(num("1")))));
}

#[test]
fn an_expression_ends_before_what_cannot_go_on() {
    let mut tokens = queue("1 + 2 end 3");
    assert_eq!(parse_expr(&mut tokens), Ok(add(num("1"), num("2"))));
    assert_eq!(tokens, queue("end 3"));
    let mut tokens = queue("1 2");
    assert_eq!(parse_expr(&mut tokens), Ok(num("1")));
    assert_eq!(tokens, queue("2"));
    let mut tokens = queue("1 )");
    assert_eq!(parse_expr(&mut tokens), Ok(num("1")));
    assert_eq!(tokens, queue(")"));
}

#[test]
fn a_term_leaves_sums_alone() {
    let mut tokens = queue("2 * 3 + 4");
    assert_eq!(parse_term(&mut tokens), Ok(mul(num("2"), num("3"))));
    assert_eq!(tokens, queue("+ 4"));
}

#[test]
fn a_factor_leaves_products_alone() {
    let mut tokens = queue("2 * 3");
    assert_eq!(parse_factor(&mut tokens), Ok(num("2")));
    assert_eq!(tokens, queue("* 3"));
    let mut tokens = queue("-(1 + 2) * 3");
    assert_eq!(parse_factor(&mut tokens), Ok(neg(add(num("1"), num("2")))));
    assert_eq!(tokens, queue("* 3"));
}

#[test]
fn an_empty_expression_is_unexpected_eof() {
    assert_eq!(expr_error(""), "unexpected eof");
    assert_eq!(expr_error("1 +"), "unexpected eof");
    assert_eq!(expr_error("1 *"), "unexpected eof");
    assert_eq!(expr_error("-"), "unexpected eof");
    assert_eq!(expr_error("not"), "unexpected eof");
    assert_eq!(expr_error("("), "unexpected eof");
}

#[test]
fn a_missing_parenthesis_is_reported() {
    assert_eq!(expr_error("(1 + 2"), "unexpected eof");
    assert_eq!(expr_error("(1 + 2 3"), "unexpected 3");
    assert_eq!(expr_error("(1 end"), "unexpected end");
}

#[test]
fn a_token_that_begins_no_factor_is_reported() {
    assert_eq!(expr_error(")"), "unexpected )");
    assert_eq!(expr_error("*"), "unexpected *");
    assert_eq!(expr_error("+ 1"), "unexpected +");
    assert_eq!(expr_error("x"), "unexpected x");
    assert_eq!(expr_error("1 + end"), "unexpected end");
    assert_eq!(expr_error("1 * ,"), "unexpected ,");
    assert_eq!(expr_error("and"), "unexpected and");
}

#[test]
fn the_first_error_is_the_one_reported() {
    let mut tokens = queue("( * 2 )");
    assert_eq!(parse_expr(&mut tokens).unwrap_err().msg, "unexpected *");
    assert_eq!(tokens, queue("2 )"));
    assert_eq!(expr_error("( ( ) 1"), "unexpected )");
}

#[test]
fn a_failed_parse_has_taken_the_refused_token() {
    let mut tokens = queue("1 + , 2");
    assert_eq!(parse_expr(&mut tokens).unwrap_err().msg, "unexpected ,");
    assert_eq!(tokens, queue("2"));
    let mut tokens = queue("func f ( ) return 1 foo end");
    assert_eq!(parse_ast(&mut tokens).unwrap_err().msg, "expected statement, got \"foo\"");
    assert_eq!(tokens, queue("end"));
}

#[test]
fn expected_tokens_are_taken() {
    let mut tokens = queue("( x then");
    assert_eq!(expect(&mut tokens, &Token::Symbol('(')), Ok(()));
    assert_eq!(expect_identifier(&mut tokens), Ok("x".to_string()));
    assert_eq!(expect(&mut tokens, &Token::Keyword(Keyword::Then)), Ok(()));
    assert!(tokens.is_empty());
}

#[test]
fn other_tokens_are_refused() {
    let mut tokens = queue(") ( \"x\" y end 1 x");
    assert_eq!(expect(&mut tokens, &Token::Symbol('(')).unwrap_err().msg, "unexpected )");
    assert_eq!(expect_identifier(&mut tokens).unwrap_err().msg, "unexpected (");
    assert_eq!(expect_identifier(&mut tokens).unwrap_err().msg, "unexpected x");
    assert_eq!(expect(&mut tokens, &Token::Keyword(Keyword::Then)).unwrap_err().msg, "unexpected y");
    assert_eq!(expect(&mut tokens, &Token::Keyword(Keyword::Then)).unwrap_err().msg, "unexpected end");
    assert_eq!(expect(&mut tokens, &Token::Symbol('(')).unwrap_err().msg, "unexpected 1");
    assert_eq!(expect(&mut tokens, &Token::Symbol('x')).unwrap_err().msg, "unexpected x");
    assert!(tokens.is_empty());
}

#[test]
fn any_token_can_be_expected() {
    let mut tokens = queue("x 1 \"s\" x x");
    assert_eq!(expect(&mut tokens, &Token::Identifier("x".to_string())), Ok(()));
    assert_eq!(expect(&mut tokens, &Token::Number("1".to_string())), Ok(()));
    assert_eq!(expect(&mut tokens, &Token::String("s".to_string())), Ok(()));
    assert_eq!(
        expect(&mut tokens, &Token::String("x".to_string())).unwrap_err().msg,
        "unexpected x"
    );
    assert_eq!(
        expect(&mut tokens, &Token::Identifier("y".to_string())).unwrap_err().msg,
        "unexpected x"
    );
    assert!(tokens.is_empty());
}

#[test]
fn nothing_to_expect_from_an_empty_queue() {
    let mut tokens = queue("");
    assert_eq!(expect(&mut tokens, &Token::Symbol('(')).unwrap_err().msg, "unexpected eof");
    assert_eq!(expect(&mut tokens, &Token::Keyword(Keyword::End)).unwrap_err().msg, "unexpected eof");
    assert_eq!(expect_identifier(&mut tokens).unwrap_err().msg, "unexpected eof");
    assert!(tokens.is_empty());
}

#[test]
fn a_block_holds_its_statements_in_order() {
    let mut tokens = queue("return 1 drop 2 + 3 return \"x\" end func");
    let block = parse_block(&mut tokens).unwrap();
    assert_eq!(
        block.statements,
        vec![
            AstStatement::Return(num("1")),
            AstStatement::Drop(add(num("2"), num("3"))),
            AstStatement::Return(text("x")),
        ]
    );
    assert_eq!(tokens, queue("func"));
}

#[test]
fn a_block_needs_its_end() {
    assert_eq!(parse_block(&mut queue("")).unwrap_err().msg, "unexpected eof");
    assert_eq!(parse_block(&mut queue("return 1")).unwrap_err().msg, "unexpected eof");
    assert_eq!(parse_block(&mut queue("return")).unwrap_err().msg, "unexpected eof");
    assert_eq!(
        parse_block(&mut queue("if true then return 1 end")).unwrap_err().msg,
        "unexpected eof"
    );
}

#[test]
fn a_statement_begins_with_its_keyword() {
    let mut tokens = queue("1 + 2 end");
    assert_eq!(
        parse_statement(Token::Keyword(Keyword::Drop), &mut tokens),
        Ok(AstStatement::Drop(add(num("1"), num("2"))))
    );
    assert_eq!(tokens, queue("end"));
    let mut tokens = queue("1 + 2 end");
    assert_eq!(
        parse_statement(Token::Keyword(Keyword::While), &mut tokens).unwrap_err().msg,
        "expected statement, got \"while\""
    );
    assert_eq!(tokens, queue("1 + 2 end"));
}

#[test]
fn statements_that_are_not_parsed_yet_are_refused() {
    for (source, word) in [
        ("do end", "do"),
        ("while true do end", "while"),
        ("for", "for"),
        ("repeat", "repeat"),
        ("until", "until"),
        ("then", "then"),
        ("func", "func"),
        ("x", "x"),
        ("1", "1"),
        ("\"s\"", "s"),
        ("(", "("),
        (":", ":"),
    ] {
        assert_eq!(
            parse_block(&mut queue(source)).unwrap_err().msg,
            format!("expected statement, got \"{}\"", word)
        );
    }
}

#[test]
fn an_if_needs_its_then() {
    assert_eq!(program_error("func f ( ) if true return 1 end end"), "unexpected return");
    assert_eq!(program_error("func f ( ) if true"), "unexpected eof");
    assert_eq!(program_error("func f ( ) if then"), "unexpected then");
    assert_eq!(program_error("func f ( ) if true do"), "unexpected do");
}

#[test]
fn ifs_nest() {
    let block = parse_block(&mut queue(
        "if 1 then if 2 then drop 3 end return 4 end drop 5 end",
    ))
    .unwrap();
    let inner = AstStatement::If(
        num("2"),
        AstBlock { statements: vec![AstStatement::Drop(num("3"))] },
    );
    let outer = AstStatement::If(
        num("1"),
        AstBlock { statements: vec![inner, AstStatement::Return(num("4"))] },
    );
    assert_eq!(block.statements, vec![outer, AstStatement::Drop(num("5"))]);
}

#[test]
fn a_function_needs_name_and_parentheses() {
    assert_eq!(program_error("func"), "unexpected eof");
    assert_eq!(program_error("func 1"), "unexpected 1");
    assert_eq!(program_error("func ( )"), "unexpected (");
    assert_eq!(program_error("func end ( ) end"), "unexpected end");
    assert_eq!(program_error("func f"), "unexpected eof");
    assert_eq!(program_error("func f )"), "unexpected )");
    assert_eq!(program_error("func f ("), "unexpected eof");
    assert_eq!(program_error("func f ( x ) end"), "unexpected x");
    assert_eq!(program_error("func f ( )"), "unexpected eof");
}

#[test]
fn a_function_is_parsed_after_its_keyword() {
    let mut tokens = queue("f ( ) drop 1 end func");
    assert_eq!(
        parse_function(&mut tokens),
        Ok(AstFunc {
            id: "f".to_string(),
            block: AstBlock { statements: vec![AstStatement::Drop(num("1"))] },
        })
    );
    assert_eq!(tokens, queue("func"));
}

#[test]
fn only_functions_stand_at_the_top() {
    assert_eq!(program_error("foo"), "unexpected identifier \"foo\"");
    assert_eq!(program_error("1"), "unexpected number \"1\"");
    assert_eq!(program_error("end"), "unexpected keyword \"end\"");
    assert_eq!(program_error("("), "unexpected symbol \"(\"");
    assert_eq!(program_error("\"a b\""), "unexpected string \"a b\"");
    assert_eq!(program_error("func f ( ) end return 1"), "unexpected keyword \"return\"");
}

#[test]
fn an_empty_program_has_no_functions() {
    assert_eq!(parse_ast(&mut queue("")), Ok(AstProgram { functions: vec![] }));
}

#[test]
fn functions_stay_in_their_order() {
    let mut tokens = queue("func a ( ) end func b ( ) return 1 end func a ( ) drop 2 end");
    let program = parse_ast(&mut tokens).unwrap();
    assert!(tokens.is_empty());
    let names: Vec<&str> = program.functions.iter().map(|f| f.id.as_str()).collect();
    assert_eq!(names, vec!["a", "b", "a"]);
    let sizes: Vec<usize> = program.functions.iter().map(|f| f.block.statements.len()).collect();
    assert_eq!(sizes, vec![0, 1, 1]);
}

#[test]
fn an_error_is_made_of_its_message() {
    let err = ParseError::new("some message".to_string());
    assert_eq!(err.msg, "some message");
    assert_eq!(ParseError::new(String::new()).msg, "");
}

#[test]
fn nesting_goes_deep() {
    let depth = 300;
    let source = format!("{}1{}", "( ".repeat(depth), " )".repeat(depth));
    assert_eq!(expr(&source), Ok(num("1")));

    let source = format!("{}1", "- ".repeat(depth));
    let mut expected = num("1");
    for _ in 0..depth {
        expected = neg(expected);
    }
    assert_eq!(expr(&source), Ok(expected));

    let source = format!("{}end{}", "if true then ".repeat(depth), " end".repeat(depth));
    let mut block = parse_block(&mut queue(&source)).unwrap();
    for _ in 0..depth {
        assert_eq!(block.statements.len(), 1);
        block = match block.statements.pop() {
            Some(AstStatement::If(AstExpression::Boolean(true), inner)) => inner,
            other => panic!("{:?}", other),
        };
    }
    assert!(block.statements.is_empty());
}

#[test]
fn a_long_chain_is_one_left_leaning_tree() {
    let count = 2000;
    let source = format!("0{}", " + 1".repeat(count));
    let mut tree = expr(&source).unwrap();
    for _ in 0..count {
        tree = match tree {
            AstExpression::Add(left, right) => {
                assert_eq!(*right, num("1"));
                *left
            }
            other => panic!("{:?}", other),
        };
    }
    assert_eq!(tree, num("0"));
}
