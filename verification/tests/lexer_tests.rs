use sb3c::parse::render::render_tokens;
use sb3c::parse::tokens::{
    is_digit_char, is_symbol_char, is_whitespace_char, read_tokens, Keyword, ParseKeywordErr, Token,
};

fn lex(source: &str) -> Vec<Token> {
    let mut tokens = Vec::new();
    read_tokens(&source.to_string(), &mut tokens);
    tokens
}

fn ident(name: &str) -> Token {
    Token::Identifier(name.to_string())
}

fn number(text: &str) -> Token {
    Token::Number(text.to_string())
}

fn string(text: &str) -> Token {
    Token::String(text.to_string())
}

const KEYWORDS: [(Keyword, &str); 17] = [
    (Keyword::Func, "func"),
    (Keyword::Return, "return"),
    (Keyword::Drop, "drop"),
    (Keyword::End, "end"),
    (Keyword::Do, "do"),
    (Keyword::Then, "then"),
    (Keyword::If, "if"),
    (Keyword::While, "while"),
    (Keyword::For, "for"),
    (Keyword::Repeat, "repeat"),
    (Keyword::Until, "until"),
    (Keyword::Not, "not"),
    (Keyword::And, "and"),
    (Keyword::Or, "or"),
    (Keyword::True, "true"),
    (Keyword::False, "false"),
    (Keyword::Null, "null"),
];

#[test]
fn empty_source_has_no_tokens() {
    assert_eq!(lex(""), vec![]);
    assert_eq!(lex("  \t\r\n  "), vec![]);
}

#[test]
fn every_symbol_is_a_token() {
    let expected: Vec<Token> = "(),+-/*:".chars().map(Token::Symbol).collect();
    assert_eq!(lex("(),+-/*:"), expected);
    assert_eq!(lex(" ( ) , + - / * : "), expected);
}

#[test]
fn other_punctuation_is_part_of_a_word() {
    assert_eq!(lex("a.b c=d e;"), vec![ident("a.b"), ident("c=d"), ident("e;")]);
}

#[test]
fn every_keyword_is_recognised() {
    for (keyword, spelling) in KEYWORDS {
        assert_eq!(lex(spelling), vec![Token::Keyword(keyword)]);
    }
}

#[test]
fn keyword_spellings_go_both_ways() {
    for (keyword, spelling) in KEYWORDS {
        assert_eq!(keyword.to_string(), spelling);
        assert_eq!(keyword.as_str(), spelling);
        assert_eq!(Keyword::from_str(spelling), Ok(keyword));
        assert_eq!(Keyword::from_str(&keyword.to_string()), Ok(keyword));
    }
}

#[test]
fn other_spellings_are_no_keywords() {
    for spelling in ["", "Func", "FUNC", "func ", " func", "fun", "funcs", "true1", "nil", "elif"] {
        assert_eq!(Keyword::from_str(spelling), Err(ParseKeywordErr));
    }
}

#[test]
fn keywords_match_exactly_in_source() {
    assert_eq!(lex("iff"), vec![ident("iff")]);
    assert_eq!(lex("If"), vec![ident("If")]);
    assert_eq!(lex("endend"), vec![ident("endend")]);
    assert_eq!(lex("end end"), vec![Token::Keyword(Keyword::End), Token::Keyword(Keyword::End)]);
}

#[test]
fn a_word_that_begins_with_a_digit_is_a_number() {
    assert_eq!(lex("0"), vec![number("0")]);
    assert_eq!(lex("12 3.5"), vec![number("12"), number("3.5")]);
    assert_eq!(lex("1e9 7up"), vec![number("1e9"), number("7up")]);
}

#[test]
fn a_malformed_number_is_still_a_number_token() {
    assert_eq!(lex("3.4.5"), vec![number("3.4.5")]);
}

#[test]
fn a_word_that_ends_with_a_digit_is_an_identifier() {
    assert_eq!(lex("x1 _2 a.5"), vec![ident("x1"), ident("_2"), ident("a.5")]);
}

#[test]
fn a_sign_is_never_part_of_a_number() {
    assert_eq!(lex("-5"), vec![Token::Symbol('-'), number("5")]);
    assert_eq!(lex("1-2"), vec![number("1"), Token::Symbol('-'), number("2")]);
    assert_eq!(lex("1e-3"), vec![number("1e"), Token::Symbol('-'), number("3")]);
}

#[test]
fn strings_keep_their_inside() {
    assert_eq!(lex("\"hello world\""), vec![string("hello world")]);
    assert_eq!(lex("\"a+b (c) : 1\""), vec![string("a+b (c) : 1")]);
    assert_eq!(lex("\"\""), vec![string("")]);
    assert_eq!(lex("\"func\""), vec![string("func")]);
    assert_eq!(lex("\"12\""), vec![string("12")]);
}

#[test]
fn a_backslash_escapes_nothing() {
    assert_eq!(lex("\"a\\\"b"), vec![string("a\\"), ident("b")]);
}

#[test]
fn a_quote_ends_the_word_before_it() {
    assert_eq!(lex("abc\"def\"ghi"), vec![ident("abc"), string("def"), ident("ghi")]);
    assert_eq!(lex("1\"2\"3"), vec![number("1"), string("2"), number("3")]);
}

#[test]
fn tokens_need_no_space_between_them() {
    assert_eq!(
        lex("f(a,b)"),
        vec![
            ident("f"),
            Token::Symbol('('),
            ident("a"),
            Token::Symbol(','),
            ident("b"),
            Token::Symbol(')'),
        ]
    );
    assert_eq!(
        lex("2+3*4"),
        vec![number("2"), Token::Symbol('+'), number("3"), Token::Symbol('*'), number("4")]
    );
}

#[test]
fn an_open_string_at_the_end_is_read_as_a_word() {
    assert_eq!(lex("\"abc"), vec![ident("abc")]);
    assert_eq!(lex("\"12"), vec![number("12")]);
    assert_eq!(lex("\"end"), vec![Token::Keyword(Keyword::End)]);
    assert_eq!(lex("\"a b"), vec![ident("a b")]);
    assert_eq!(lex("x \""), vec![ident("x")]);
    assert_eq!(lex("\""), vec![]);
}

#[test]
fn all_white_space_separates() {
    assert_eq!(lex("a\tb\nc\rd\u{b}e\u{c}f"), "abcdef".chars().map(|c| ident(&c.to_string())).collect::<Vec<_>>());
    assert_eq!(lex("a\u{a0}b\u{85}c"), vec![ident("a"), ident("b"), ident("c")]);
    assert_eq!(lex("a\u{1680}b\u{2003}c\u{3000}d"), vec![ident("a"), ident("b"), ident("c"), ident("d")]);
    assert_eq!(lex("a\u{2028}b\u{2029}c\u{202f}d\u{205f}e"), "abcde".chars().map(|c| ident(&c.to_string())).collect::<Vec<_>>());
}

#[test]
fn characters_near_white_space_are_none() {
    assert_eq!(lex("a\u{200b}b"), vec![ident("a\u{200b}b")]);
    assert_eq!(lex("a\u{180e}b"), vec![ident("a\u{180e}b")]);
    assert_eq!(lex("a\u{8}b\u{e}c"), vec![ident("a\u{8}b\u{e}c")]);
    assert_eq!(lex("a\u{feff}b"), vec![ident("a\u{feff}b")]);
}

#[test]
fn white_space_is_what_the_standard_library_calls_so() {
    for code in 0u32..0x11_0000 {
        if let Some(c) = char::from_u32(code) {
            assert_eq!(is_whitespace_char(c), c.is_whitespace(), "U+{:04X}", code);
        }
    }
}

#[test]
fn digits_are_the_ten_ascii_digits() {
    for code in 0u32..0x11_0000 {
        if let Some(c) = char::from_u32(code) {
            assert_eq!(is_digit_char(c), c.is_digit(10), "U+{:04X}", code);
        }
    }
}

#[test]
fn symbols_are_the_eight_punctuation_characters() {
    for code in 0u32..0x11_0000 {
        if let Some(c) = char::from_u32(code) {
            assert_eq!(is_symbol_char(c), "(),+-/*:".contains(c), "U+{:04X}", code);
        }
    }
}

#[test]
fn words_may_hold_any_other_character() {
    assert_eq!(lex("héllo wörld"), vec![ident("héllo"), ident("wörld")]);
    assert_eq!(lex("名前 \"値\""), vec![ident("名前"), string("値")]);
    assert_eq!(lex("٣"), vec![ident("٣")]);
}

#[test]
fn tokens_are_appended_to_the_output() {
    let mut tokens = vec![ident("before"), Token::Symbol('+')];
    read_tokens(&"x 1".to_string(), &mut tokens);
    assert_eq!(tokens, vec![ident("before"), Token::Symbol('+'), ident("x"), number("1")]);
    read_tokens(&"".to_string(), &mut tokens);
    assert_eq!(tokens.len(), 4);
}

#[test]
fn a_whole_function_is_lexed() {
    assert_eq!(
        lex("func main()\n  return \"hi\"\nend\n"),
        vec![
            Token::Keyword(Keyword::Func),
            ident("main"),
            Token::Symbol('('),
            Token::Symbol(')'),
            Token::Keyword(Keyword::Return),
            string("hi"),
            Token::Keyword(Keyword::End),
        ]
    );
}

#[test]
fn kinds_of_tokens_have_names() {
    assert_eq!(Token::Symbol('+').typestr(), "symbol");
    assert_eq!(ident("x").typestr(), "identifier");
    assert_eq!(Token::Keyword(Keyword::If).typestr(), "keyword");
    assert_eq!(number("1").typestr(), "number");
    assert_eq!(string("s").typestr(), "string");
}

#[test]
fn tokens_are_printed_as_their_text() {
    assert_eq!(Token::Symbol('+').to_string(), "+");
    assert_eq!(ident("x1").to_string(), "x1");
    assert_eq!(Token::Keyword(Keyword::While).to_string(), "while");
    assert_eq!(number("1.50").to_string(), "1.50");
    assert_eq!(string("a b").to_string(), "a b");
    assert_eq!(string("").to_string(), "");
}

#[test]
fn tokens_are_written_as_source() {
    assert_eq!(Token::Symbol(':').to_source(), ":");
    assert_eq!(ident("x1").to_source(), "x1");
    assert_eq!(Token::Keyword(Keyword::Until).to_source(), "until");
    assert_eq!(number("42").to_source(), "42");
    assert_eq!(string("a b").to_source(), "\"a b\"");
    assert_eq!(string("").to_source(), "\"\"");
}

#[test]
fn tokens_are_rendered_with_single_spaces() {
    assert_eq!(render_tokens(&vec![]), "");
    assert_eq!(render_tokens(&vec![ident("x")]), "x");
    assert_eq!(
        render_tokens(&lex("func  main( )\n return\t\"a  b\"+1 end")),
        "func main ( ) return \"a  b\" + 1 end"
    );
}

#[test]
fn lexing_rendering_and_lexing_again_changes_nothing() {
    let sources = [
        "",
        "func main ( ) return 1 end",
        "func f()if true then return\"x y\"end end",
        "a+b*(c-d)/e : f , g",
        "  12   3.4.5 x1 \"\" \"(\" not null  ",
        "héllo\u{3000}\"wörld\"\u{a0}7",
        "\"abc",
    ];
    for source in sources {
        let first = lex(source);
        let again = lex(&render_tokens(&first));
        assert_eq!(first, again, "{:?}", source);
    }
}

#[test]
fn an_open_string_with_a_space_is_not_read_back() {
    let first = lex("\"a b");
    assert_eq!(first, vec![ident("a b")]);
    assert_eq!(lex(&render_tokens(&first)), vec![ident("a"), ident("b")]);
}

#[test]
fn the_tokens_hold_the_text_but_for_blanks_and_quotes() {
    let sources = [
        "func main ( ) return 1 end",
        "  a+b\t\"c d\"\n\"e",
        "x\u{a0}\"y\u{2003}z\" 3.4.5 \"",
    ];
    for source in sources {
        let printed: String = lex(source).iter().map(|t| t.to_string()).collect();
        let solid = |s: &str| -> String {
            s.chars().filter(|c| !c.is_whitespace() && *c != '"').collect()
        };
        assert_eq!(solid(&printed), solid(source), "{:?}", source);
    }
}

#[test]
fn tokens_are_the_same_by_kind_and_content() {
    let tokens = [
        Token::Symbol('+'),
        Token::Symbol('-'),
        ident("x"),
        ident("y"),
        ident("1"),
        ident("if"),
        Token::Keyword(Keyword::If),
        Token::Keyword(Keyword::Then),
        number("1"),
        number("1.0"),
        number("x"),
        string("x"),
        string("1"),
        string(""),
        string("+"),
    ];
    for (i, a) in tokens.iter().enumerate() {
        for (j, b) in tokens.iter().enumerate() {
            assert_eq!(a.same_as(b), i == j, "{:?} {:?}", a, b);
            assert_eq!(a.same_as(b), a == b);
        }
    }
}
