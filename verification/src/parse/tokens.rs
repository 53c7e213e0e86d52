//! Tokens of the language and the lexer that produces them.
//!
//! The lexer is a single left-to-right scan. Its result is specified by
//! [`lex`], a maximal-munch description of the token sequence of a text, and
//! [`read_tokens`] is proved to compute exactly that sequence.

use vstd::prelude::*;

verus! {

/// The reserved words of the language.
#[derive(Debug, Clone, Copy, PartialEq, Eq, Structural)]
pub enum Keyword {
    Func,
    Return,
    Drop,
    End,
    Do,
    Then,
    If,
    While,
    For,
    Repeat,
    Until,
    Not,
    And,
    Or,
    True,
    False,
    Null,
}

/// The error of looking up a spelling that is no keyword.
#[derive(Debug, Clone, Copy, PartialEq, Eq, Structural)]
pub struct ParseKeywordErr;

/// The keyword that is spelled `s`, if there is one. The match is on the
/// whole of `s`: a text that merely begins with a keyword is none.
pub open spec fn keyword_of(s: Seq<char>) -> Option<Keyword> {
    if s == "func"@ {
        Some(Keyword::Func)
    } else if s == "return"@ {
        Some(Keyword::Return)
    } else if s == "drop"@ {
        Some(Keyword::Drop)
    } else if s == "end"@ {
        Some(Keyword::End)
    } else if s == "do"@ {
        Some(Keyword::Do)
    } else if s == "then"@ {
        Some(Keyword::Then)
    } else if s == "if"@ {
        Some(Keyword::If)
    } else if s == "while"@ {
        Some(Keyword::While)
    } else if s == "for"@ {
        Some(Keyword::For)
    } else if s == "repeat"@ {
        Some(Keyword::Repeat)
    } else if s == "until"@ {
        Some(Keyword::Until)
    } else if s == "not"@ {
        Some(Keyword::Not)
    } else if s == "and"@ {
        Some(Keyword::And)
    } else if s == "or"@ {
        Some(Keyword::Or)
    } else if s == "true"@ {
        Some(Keyword::True)
    } else if s == "false"@ {
        Some(Keyword::False)
    } else if s == "null"@ {
        Some(Keyword::Null)
    } else {
        None
    }
}

impl Keyword {
    /// The spelling of the keyword in source text.
    pub open spec fn spelling(self) -> Seq<char> {
        match self {
            Keyword::Func => "func"@,
            Keyword::Return => "return"@,
            Keyword::Drop => "drop"@,
            Keyword::End => "end"@,
            Keyword::Do => "do"@,
            Keyword::Then => "then"@,
            Keyword::If => "if"@,
            Keyword::While => "while"@,
            Keyword::For => "for"@,
            Keyword::Repeat => "repeat"@,
            Keyword::Until => "until"@,
            Keyword::Not => "not"@,
            Keyword::And => "and"@,
            Keyword::Or => "or"@,
            Keyword::True => "true"@,
            Keyword::False => "false"@,
            Keyword::Null => "null"@,
        }
    }

    /// The spelling of the keyword, as a string slice.
    pub fn as_str(&self) -> (r: &'static str)
        ensures
            r@ == self.spelling(),
    {
        match self {
            Keyword::Func => "func",
            Keyword::Return => "return",
            Keyword::Drop => "drop",
            Keyword::End => "end",
            Keyword::Do => "do",
            Keyword::Then => "then",
            Keyword::If => "if",
            Keyword::While => "while",
            Keyword::For => "for",
            Keyword::Repeat => "repeat",
            Keyword::Until => "until",
            Keyword::Not => "not",
            Keyword::And => "and",
            Keyword::Or => "or",
            Keyword::True => "true",
            Keyword::False => "false",
            Keyword::Null => "null",
        }
    }

    /// The spelling of the keyword, as an owned string.
    pub fn to_string(&self) -> (r: String)
        ensures
            r@ == self.spelling(),
    {
        self.as_str().to_owned()
    }

    /// Looks a spelling up in the keyword table. The lookup succeeds exactly
    /// on the seventeen spellings, and then gives the keyword that is
    /// spelled so.
    pub fn from_str(s: &str) -> (r: Result<Keyword, ParseKeywordErr>)
        ensures
            r == match keyword_of(s@) {
                Some(k) => Ok::<Keyword, ParseKeywordErr>(k),
                None => Err::<Keyword, ParseKeywordErr>(ParseKeywordErr),
            },
            r matches Ok(k) ==> s@ == k.spelling(),
            r is Err ==> forall|k: Keyword| s@ != #[trigger] k.spelling(),
    {
        if s.eq("func") {
            Ok(Keyword::Func)
        } else if s.eq("return") {
            Ok(Keyword::Return)
        } else if s.eq("drop") {
            Ok(Keyword::Drop)
        } else if s.eq("end") {
            Ok(Keyword::End)
        } else if s.eq("do") {
            Ok(Keyword::Do)
        } else if s.eq("then") {
            Ok(Keyword::Then)
        } else if s.eq("if") {
            Ok(Keyword::If)
        } else if s.eq("while") {
            Ok(Keyword::While)
        } else if s.eq("for") {
            Ok(Keyword::For)
        } else if s.eq("repeat") {
            Ok(Keyword::Repeat)
        } else if s.eq("until") {
            Ok(Keyword::Until)
        } else if s.eq("not") {
            Ok(Keyword::Not)
        } else if s.eq("and") {
            Ok(Keyword::And)
        } else if s.eq("or") {
            Ok(Keyword::Or)
        } else if s.eq("true") {
            Ok(Keyword::True)
        } else if s.eq("false") {
            Ok(Keyword::False)
        } else if s.eq("null") {
            Ok(Keyword::Null)
        } else {
            Err(ParseKeywordErr)
        }
    }
}

/// Reveals the characters of the seventeen keyword spellings.
pub proof fn lemma_keyword_spellings()
    ensures
        "func"@ == seq!['f', 'u', 'n', 'c'],
        "return"@ == seq!['r', 'e', 't', 'u', 'r', 'n'],
        "drop"@ == seq!['d', 'r', 'o', 'p'],
        "end"@ == seq!['e', 'n', 'd'],
        "do"@ == seq!['d', 'o'],
        "then"@ == seq!['t', 'h', 'e', 'n'],
        "if"@ == seq!['i', 'f'],
        "while"@ == seq!['w', 'h', 'i', 'l', 'e'],
        "for"@ == seq!['f', 'o', 'r'],
        "repeat"@ == seq!['r', 'e', 'p', 'e', 'a', 't'],
        "until"@ == seq!['u', 'n', 't', 'i', 'l'],
        "not"@ == seq!['n', 'o', 't'],
        "and"@ == seq!['a', 'n', 'd'],
        "or"@ == seq!['o', 'r'],
        "true"@ == seq!['t', 'r', 'u', 'e'],
        "false"@ == seq!['f', 'a', 'l', 's', 'e'],
        "null"@ == seq!['n', 'u', 'l', 'l'],
{
    reveal_strlit("func");
    reveal_strlit("return");
    reveal_strlit("drop");
    reveal_strlit("end");
    reveal_strlit("do");
    reveal_strlit("then");
    reveal_strlit("if");
    reveal_strlit("while");
    reveal_strlit("for");
    reveal_strlit("repeat");
    reveal_strlit("until");
    reveal_strlit("not");
    reveal_strlit("and");
    reveal_strlit("or");
    reveal_strlit("true");
    reveal_strlit("false");
    reveal_strlit("null");
    assert("func"@ =~= seq!['f', 'u', 'n', 'c']);
    assert("return"@ =~= seq!['r', 'e', 't', 'u', 'r', 'n']);
    assert("drop"@ =~= seq!['d', 'r', 'o', 'p']);
    assert("end"@ =~= seq!['e', 'n', 'd']);
    assert("do"@ =~= seq!['d', 'o']);
    assert("then"@ =~= seq!['t', 'h', 'e', 'n']);
    assert("if"@ =~= seq!['i', 'f']);
    assert("while"@ =~= seq!['w', 'h', 'i', 'l', 'e']);
    assert("for"@ =~= seq!['f', 'o', 'r']);
    assert("repeat"@ =~= seq!['r', 'e', 'p', 'e', 'a', 't']);
    assert("until"@ =~= seq!['u', 'n', 't', 'i', 'l']);
    assert("not"@ =~= seq!['n', 'o', 't']);
    assert("and"@ =~= seq!['a', 'n', 'd']);
    assert("or"@ =~= seq!['o', 'r']);
    assert("true"@ =~= seq!['t', 'r', 'u', 'e']);
    assert("false"@ =~= seq!['f', 'a', 'l', 's', 'e']);
    assert("null"@ =~= seq!['n', 'u', 'l', 'l']);
}

/// Keywords and spellings correspond one to one: looking up a keyword's
/// spelling gives that keyword back, and a spelling that names a keyword is
/// that keyword's spelling.
pub proof fn lemma_keyword_spelling_round_trip(k: Keyword, s: Seq<char>)
    ensures
        keyword_of(k.spelling()) == Some(k),
        keyword_of(s) == Some(k) <==> s == k.spelling(),
{
    lemma_keyword_spellings();
    lemma_distinct_spellings();
}

/// No two keywords share a spelling.
pub proof fn lemma_distinct_spellings()
    ensures
        forall|a: Keyword, b: Keyword|
            #[trigger] a.spelling() == #[trigger] b.spelling() ==> a == b,
{
    lemma_keyword_spellings();
    assert forall|a: Keyword, b: Keyword|
        #[trigger] a.spelling() == #[trigger] b.spelling() implies a == b by {
        let x = a.spelling();
        let y = b.spelling();
        if a != b && x.len() == y.len() {
            assert(x[0] != y[0] || x[1] != y[1] || (x.len() > 2 && x[2] != y[2]));
        }
    }
}

/// One lexical unit of a program.
///
/// A number token holds the text of the literal as it stands in the source:
/// the lexer decides that a word is a number by its first character alone,
/// and does not interpret the digits.
#[derive(Debug, PartialEq, Eq)]
pub enum Token {
    Symbol(char),
    Identifier(String),
    Keyword(Keyword),
    Number(String),
    String(String),
}

/// The mathematical value of a [`Token`]: the same variants, with texts as
/// sequences of characters.
pub enum SpecToken {
    Symbol(char),
    Identifier(Seq<char>),
    Keyword(Keyword),
    Number(Seq<char>),
    String(Seq<char>),
}

impl View for Token {
    type V = SpecToken;

    open spec fn view(&self) -> SpecToken {
        match self {
            Token::Symbol(c) => SpecToken::Symbol(*c),
            Token::Identifier(s) => SpecToken::Identifier(s@),
            Token::Keyword(k) => SpecToken::Keyword(*k),
            Token::Number(s) => SpecToken::Number(s@),
            Token::String(s) => SpecToken::String(s@),
        }
    }
}

impl DeepView for Token {
    type V = SpecToken;

    open spec fn deep_view(&self) -> SpecToken {
        self.view()
    }
}

impl SpecToken {
    /// The text that a token is printed as: a symbol's character, a
    /// keyword's spelling, and otherwise the text that the token holds. A
    /// string is printed without its quotes.
    pub open spec fn text(self) -> Seq<char> {
        match self {
            SpecToken::Symbol(c) => seq![c],
            SpecToken::Identifier(s) => s,
            SpecToken::Keyword(k) => k.spelling(),
            SpecToken::Number(s) => s,
            SpecToken::String(s) => s,
        }
    }

    /// The name of the token's kind.
    pub open spec fn kind_name(self) -> Seq<char> {
        match self {
            SpecToken::Symbol(_) => "symbol"@,
            SpecToken::Identifier(_) => "identifier"@,
            SpecToken::Keyword(_) => "keyword"@,
            SpecToken::Number(_) => "number"@,
            SpecToken::String(_) => "string"@,
        }
    }
}

impl Token {
    /// The name of the token's kind: `symbol`, `identifier`, `keyword`,
    /// `number` or `string`.
    pub fn typestr(&self) -> (r: &'static str)
        ensures
            r@ == self@.kind_name(),
    {
        match self {
            Token::Symbol(_) => "symbol",
            Token::Identifier(_) => "identifier",
            Token::Keyword(_) => "keyword",
            Token::Number(_) => "number",
            Token::String(_) => "string",
        }
    }

    /// Tells whether `other` is the same token: of the same kind and with
    /// the same character, keyword or text.
    pub fn same_as(&self, other: &Token) -> (r: bool)
        ensures
            r == (self@ == other@),
    {
        match (self, other) {
            (Token::Symbol(a), Token::Symbol(b)) => *a == *b,
            (Token::Identifier(a), Token::Identifier(b)) => a.as_str().eq(b.as_str()),
            (Token::Keyword(a), Token::Keyword(b)) => *a == *b,
            (Token::Number(a), Token::Number(b)) => a.as_str().eq(b.as_str()),
            (Token::String(a), Token::String(b)) => a.as_str().eq(b.as_str()),
            _ => false,
        }
    }

    /// The text that the token is printed as.
    pub fn to_string(&self) -> (r: String)
        ensures
            r@ == self@.text(),
    {
        match self {
            Token::Symbol(c) => {
                let mut s = String::new();
                s.push(*c);
                assert(s@ =~= seq![*c]);
                s
            },
            Token::Identifier(s) => s.clone(),
            Token::Keyword(k) => k.to_string(),
            Token::Number(s) => s.clone(),
            Token::String(s) => s.clone(),
        }
    }
}

/// Whether `c` is one of the punctuation characters, each of which is a
/// token by itself.
pub open spec fn is_symbol(c: char) -> bool {
    c == '(' || c == ')' || c == ',' || c == '+' || c == '-' || c == '/' || c == '*' || c == ':'
}

/// Whether `c` is white space: one of the code points that Unicode gives
/// the property `White_Space`.
pub open spec fn is_whitespace(c: char) -> bool {
    ||| '\u{9}' <= c <= '\u{d}'
    ||| c == ' '
    ||| c == '\u{85}'
    ||| c == '\u{a0}'
    ||| c == '\u{1680}'
    ||| '\u{2000}' <= c <= '\u{200a}'
    ||| c == '\u{2028}'
    ||| c == '\u{2029}'
    ||| c == '\u{202f}'
    ||| c == '\u{205f}'
    ||| c == '\u{3000}'
}

/// Whether `c` is a decimal digit.
pub open spec fn is_digit(c: char) -> bool {
    '0' <= c <= '9'
}

/// Whether `c` ends the word before it: punctuation, a double quote and
/// white space do, every other character is part of a word.
pub open spec fn ends_word(c: char) -> bool {
    is_symbol(c) || c == '"' || is_whitespace(c)
}

/// The token that a word becomes: a number if it begins with a digit,
/// else the keyword that it spells, else an identifier.
pub open spec fn classify(word: Seq<char>) -> SpecToken
    recommends
        word.len() > 0,
{
    if is_digit(word[0]) {
        SpecToken::Number(word)
    } else {
        match keyword_of(word) {
            Some(k) => SpecToken::Keyword(k),
            None => SpecToken::Identifier(word),
        }
    }
}

/// The tokens of a pending word: none if it is empty, else the one token
/// that it becomes.
pub open spec fn flush(word: Seq<char>) -> Seq<SpecToken> {
    if word.len() == 0 {
        Seq::empty()
    } else {
        seq![classify(word)]
    }
}

/// The length of the longest prefix of `s` in which no character ends a
/// word.
pub open spec fn word_len(s: Seq<char>) -> nat
    decreases s.len(),
{
    if s.len() == 0 || ends_word(s[0]) {
        0
    } else {
        1 + word_len(s.skip(1))
    }
}

/// The length of the longest prefix of `s` that holds no double quote.
pub open spec fn unquoted_len(s: Seq<char>) -> nat
    decreases s.len(),
{
    if s.len() == 0 || s[0] == '"' {
        0
    } else {
        1 + unquoted_len(s.skip(1))
    }
}

/// `word_len` stays within the text, covers word characters only, and
/// stops at the end of the text or before a character that ends a word.
pub proof fn lemma_word_len(s: Seq<char>)
    ensures
        word_len(s) <= s.len(),
        forall|k: int| 0 <= k < word_len(s) ==> !ends_word(#[trigger] s[k]),
        word_len(s) < s.len() ==> ends_word(s[word_len(s) as int]),
    decreases s.len(),
{
    if s.len() == 0 || ends_word(s[0]) {
    } else {
        let t = s.skip(1);
        lemma_word_len(t);
        assert forall|k: int| 0 <= k < word_len(s) implies !ends_word(#[trigger] s[k]) by {
            if k > 0 {
                assert(s[k] == t[k - 1]);
            }
        }
        if word_len(s) < s.len() {
            assert(s[word_len(s) as int] == t[word_len(t) as int]);
        }
    }
}

/// A run of `n` word characters that ends the text, or that a character
/// which ends a word follows, is the longest such prefix.
pub proof fn lemma_word_len_is(s: Seq<char>, n: nat)
    requires
        n <= s.len(),
        forall|k: int| 0 <= k < n ==> !ends_word(#[trigger] s[k]),
        n < s.len() ==> ends_word(s[n as int]),
    ensures
        word_len(s) == n,
    decreases n,
{
    if n > 0 {
        let t = s.skip(1);
        assert(!ends_word(s[0]));
        assert forall|k: int| 0 <= k < n - 1 implies !ends_word(#[trigger] t[k]) by {
            assert(t[k] == s[k + 1]);
        }
        lemma_word_len_is(t, (n - 1) as nat);
    }
}

/// `unquoted_len` stays within the text, covers no double quote, and stops
/// at the end of the text or before a double quote.
pub proof fn lemma_unquoted_len(s: Seq<char>)
    ensures
        unquoted_len(s) <= s.len(),
        forall|k: int| 0 <= k < unquoted_len(s) ==> #[trigger] s[k] != '"',
        unquoted_len(s) < s.len() ==> s[unquoted_len(s) as int] == '"',
    decreases s.len(),
{
    if s.len() == 0 || s[0] == '"' {
    } else {
        let t = s.skip(1);
        lemma_unquoted_len(t);
        assert forall|k: int| 0 <= k < unquoted_len(s) implies #[trigger] s[k] != '"' by {
            if k > 0 {
                assert(s[k] == t[k - 1]);
            }
        }
        if unquoted_len(s) < s.len() {
            assert(s[unquoted_len(s) as int] == t[unquoted_len(t) as int]);
        }
    }
}

/// A run of `n` characters other than the double quote that ends the text,
/// or that a double quote follows, is the longest such prefix.
pub proof fn lemma_unquoted_len_is(s: Seq<char>, n: nat)
    requires
        n <= s.len(),
        forall|k: int| 0 <= k < n ==> #[trigger] s[k] != '"',
        n < s.len() ==> s[n as int] == '"',
    ensures
        unquoted_len(s) == n,
    decreases n,
{
    if n > 0 {
        let t = s.skip(1);
        assert(s[0] != '"');
        assert forall|k: int| 0 <= k < n - 1 implies #[trigger] t[k] != '"' by {
            assert(t[k] == s[k + 1]);
        }
        lemma_unquoted_len_is(t, (n - 1) as nat);
    }
}

/// The token sequence of a source text.
///
/// The text is read from the left. A punctuation character is a symbol
/// token. A double quote opens a string, which runs up to the next double
/// quote; there are no escapes. White space separates and is dropped. Any
/// other character begins a word, which runs as far as it can and becomes a
/// number, a keyword or an identifier (see [`classify`]). Where the text
/// ends inside a string, what was read of the string is treated as a word.
pub open spec fn lex(s: Seq<char>) -> Seq<SpecToken>
    decreases s.len(),
{
    if s.len() == 0 {
        Seq::empty()
    } else if is_symbol(s[0]) {
        seq![SpecToken::Symbol(s[0])] + lex(s.skip(1))
    } else if s[0] == '"' {
        let body = s.skip(1);
        let n = unquoted_len(body);
        if n < body.len() {
            seq![SpecToken::String(body.take(n as int))] + lex(body.skip(n as int + 1))
        } else {
            flush(body)
        }
    } else if is_whitespace(s[0]) {
        lex(s.skip(1))
    } else {
        let n = word_len(s);
        proof {
            lemma_word_len(s);
        }
        seq![classify(s.take(n as int))] + lex(s.skip(n as int))
    }
}

/// A text that begins with a word of `n` characters has that word's token
/// first, and then the tokens of what follows the word.
pub proof fn lemma_lex_word(s: Seq<char>, n: int)
    requires
        0 < n <= s.len(),
        forall|k: int| 0 <= k < n ==> !ends_word(#[trigger] s[k]),
        n < s.len() ==> ends_word(s[n]),
    ensures
        lex(s) == seq![classify(s.take(n))] + lex(s.skip(n)),
{
    lemma_word_len_is(s, n as nat);
    assert(!ends_word(s[0]));
}

/// A text that begins with a string of `n` characters between two double
/// quotes has the string's token first, and then the tokens of what
/// follows the closing quote.
pub proof fn lemma_lex_string(s: Seq<char>, n: int)
    requires
        0 <= n,
        n + 1 < s.len(),
        s[0] == '"',
        forall|k: int| 1 <= k <= n ==> #[trigger] s[k] != '"',
        s[n + 1] == '"',
    ensures
        lex(s) == seq![SpecToken::String(s.subrange(1, n + 1))] + lex(s.skip(n + 2)),
{
    let body = s.skip(1);
    assert forall|k: int| 0 <= k < n implies #[trigger] body[k] != '"' by {
        assert(body[k] == s[k + 1]);
    }
    assert(body[n] == s[n + 1]);
    lemma_unquoted_len_is(body, n as nat);
    assert(body.take(n) =~= s.subrange(1, n + 1));
    assert(body.skip(n + 1) =~= s.skip(n + 2));
}

/// A text that begins with a double quote and holds no other has the
/// tokens of the pending word made of all that follows the quote.
pub proof fn lemma_lex_open_string(s: Seq<char>)
    requires
        0 < s.len(),
        s[0] == '"',
        forall|k: int| 1 <= k < s.len() ==> #[trigger] s[k] != '"',
    ensures
        lex(s) == flush(s.skip(1)),
{
    let body = s.skip(1);
    assert forall|k: int| 0 <= k < body.len() implies #[trigger] body[k] != '"' by {
        assert(body[k] == s[k + 1]);
    }
    lemma_unquoted_len_is(body, body.len());
}

/// Tells whether `c` is one of the punctuation characters.
pub fn is_symbol_char(c: char) -> (r: bool)
    ensures
        r == is_symbol(c),
{
    c == '(' || c == ')' || c == ',' || c == '+' || c == '-' || c == '/' || c == '*' || c == ':'
}

/// Tells whether `c` is white space.
pub fn is_whitespace_char(c: char) -> (r: bool)
    ensures
        r == is_whitespace(c),
{
    ('\u{9}' <= c && c <= '\u{d}') || c == ' ' || c == '\u{85}' || c == '\u{a0}' || c == '\u{1680}'
        || ('\u{2000}' <= c && c <= '\u{200a}') || c == '\u{2028}' || c == '\u{2029}'
        || c == '\u{202f}' || c == '\u{205f}' || c == '\u{3000}'
}

/// Tells whether `c` is a decimal digit.
pub fn is_digit_char(c: char) -> (r: bool)
    ensures
        r == is_digit(c),
{
    '0' <= c && c <= '9'
}

/// Appends to `output` the token of the pending word `buffer`, if the word
/// is not empty.
fn flush_word(buffer: String, output: &mut Vec<Token>)
    ensures
        final(output).deep_view() == old(output).deep_view() + flush(buffer@),
{
    if !buffer.as_str().is_empty() {
        let first = buffer.as_str().get_char(0);
        if is_digit_char(first) {
            output.push(Token::Number(buffer));
        } else {
            match Keyword::from_str(buffer.as_str()) {
                Ok(kw) => output.push(Token::Keyword(kw)),
                Err(_) => output.push(Token::Identifier(buffer)),
            }
        }
    }
}

/// Reads the tokens of `file_contents` and appends them to `output`, in the
/// order in which they stand in the text. What `output` held before stays
/// in front of them.
pub fn read_tokens(file_contents: &String, output: &mut Vec<Token>)
    ensures
        final(output).deep_view() == old(output).deep_view() + lex(file_contents@),
{
    let ghost src = file_contents@;
    let ghost before = output.deep_view();
    let ghost mut start: int = 0;
    let mut buffer = String::new();
    let mut read_str = false;
    let it = file_contents.as_str().chars();
    assert(src.skip(0) =~= src);
    for ch in iter: it
        invariant
            iter.seq() == src,
            0 <= start <= iter.index() <= src.len(),
            before + lex(src) == output.deep_view() + lex(src.skip(start)),
            !read_str ==> buffer@ == src.subrange(start, iter.index() as int),
            !read_str ==> forall|k: int|
                start <= k < iter.index() ==> !ends_word(#[trigger] src[k]),
            read_str ==> start < iter.index(),
            read_str ==> src[start] == '"',
            read_str ==> buffer@ == src.subrange(start + 1, iter.index() as int),
            read_str ==> forall|k: int| start < k < iter.index() ==> #[trigger] src[k] != '"',
    {
        let ghost i = iter.index() as int;
        let ghost rest = src.skip(start);
        let ghost emitted = output.deep_view();
        assert(ch == src[i]);
        if read_str {
            if ch == '"' {
                proof {
                    let n = i - start - 1;
                    assert forall|k: int| 1 <= k <= n implies #[trigger] rest[k] != '"' by {
                        assert(rest[k] == src[start + k]);
                    }
                    lemma_lex_string(rest, n);
                    assert(rest.subrange(1, n + 1) =~= buffer@);
                    assert(rest.skip(n + 2) =~= src.skip(i + 1));
                    start = i + 1;
                }
                output.push(Token::String(buffer));
                buffer = String::new();
                read_str = false;
                proof {
                    assert(output.deep_view() =~= emitted + lex(rest).take(1));
                    assert(lex(rest) =~= lex(rest).take(1) + lex(src.skip(start)));
                    assert(output.deep_view() + lex(src.skip(start)) =~= emitted + lex(rest));
                    assert(buffer@ =~= src.subrange(start, i + 1));
                }
            } else {
                buffer.push(ch);
                assert(buffer@ =~= src.subrange(start + 1, i + 1));
            }
        } else if is_symbol_char(ch) || ch == '"' || is_whitespace_char(ch) {
            proof {
                if start < i {
                    let n = i - start;
                    assert forall|k: int| 0 <= k < n implies !ends_word(#[trigger] rest[k]) by {
                        assert(rest[k] == src[start + k]);
                    }
                    assert(rest[n] == src[i]);
                    lemma_lex_word(rest, n);
                    assert(rest.take(n) =~= buffer@);
                    assert(rest.skip(n) =~= src.skip(i));
                } else {
                    assert(buffer@ =~= Seq::<char>::empty());
                }
                assert(lex(rest) =~= flush(buffer@) + lex(src.skip(i)));
                assert(src.skip(i)[0] == ch);
                assert(src.skip(i).skip(1) =~= src.skip(i + 1));
            }
            flush_word(buffer, output);
            buffer = String::new();
            let ghost flushed = output.deep_view();
            assert(flushed + lex(src.skip(i)) =~= emitted + lex(rest));
            if is_symbol_char(ch) {
                output.push(Token::Symbol(ch));
                proof {
                    start = i + 1;
                    assert(output.deep_view() =~= flushed + seq![SpecToken::Symbol(ch)]);
                    assert(output.deep_view() + lex(src.skip(start)) =~= flushed + lex(
                        src.skip(i),
                    ));
                    assert(buffer@ =~= src.subrange(start, i + 1));
                }
            } else if ch == '"' {
                read_str = true;
                proof {
                    start = i;
                    assert(buffer@ =~= src.subrange(start + 1, i + 1));
                }
            } else {
                proof {
                    start = i + 1;
                    assert(buffer@ =~= src.subrange(start, i + 1));
                }
            }
        } else {
            buffer.push(ch);
            assert(buffer@ =~= src.subrange(start, i + 1));
        }
    }
    proof {
        let rest = src.skip(start);
        let i = src.len() as int;
        if read_str {
            assert forall|k: int| 1 <= k < rest.len() implies #[trigger] rest[k] != '"' by {
                assert(rest[k] == src[start + k]);
            }
            lemma_lex_open_string(rest);
            assert(rest.skip(1) =~= buffer@);
        } else if start < i {
            let n = i - start;
            assert forall|k: int| 0 <= k < n implies !ends_word(#[trigger] rest[k]) by {
                assert(rest[k] == src[start + k]);
            }
            lemma_lex_word(rest, n);
            assert(rest.take(n) =~= buffer@);
            assert(rest.skip(n) =~= Seq::<char>::empty());
        } else {
            assert(buffer@ =~= Seq::<char>::empty());
        }
        assert(lex(rest) == flush(buffer@));
    }
    flush_word(buffer, output);
}

} // verus!
