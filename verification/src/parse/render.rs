//! Writing tokens back as source text, and the proof that the lexer reads
//! its own tokens back.

use super::tokens::{
    classify, ends_word, is_digit, is_symbol, is_whitespace, keyword_of,
    lemma_keyword_spelling_round_trip, lemma_keyword_spellings, lemma_lex_string, lemma_lex_word,
    lemma_unquoted_len, lemma_word_len, lex, unquoted_len, word_len, Keyword, SpecToken, Token,
};
use vstd::prelude::*;
use vstd::string::StringExecFns;

verus! {

/// Whether `w` is a word: not empty, and without a character that ends a
/// word.
pub open spec fn is_word(w: Seq<char>) -> bool {
    &&& w.len() > 0
    &&& forall|k: int| 0 <= k < w.len() ==> !ends_word(#[trigger] w[k])
}

impl SpecToken {
    /// Whether the token can be written in a source text so that the lexer
    /// reads it back: a symbol is a punctuation character, an identifier is
    /// a word that neither begins with a digit nor spells a keyword, a
    /// number is a word that begins with a digit, and a string holds no
    /// double quote.
    pub open spec fn well_formed(self) -> bool {
        match self {
            SpecToken::Symbol(c) => is_symbol(c),
            SpecToken::Identifier(w) => is_word(w) && !is_digit(w[0]) && keyword_of(w) is None,
            SpecToken::Keyword(_) => true,
            SpecToken::Number(w) => is_word(w) && is_digit(w[0]),
            SpecToken::String(t) => forall|k: int| 0 <= k < t.len() ==> #[trigger] t[k] != '"',
        }
    }

    /// The text that the token is written as in a source: its printed text,
    /// and for a string that text between double quotes.
    pub open spec fn source_text(self) -> Seq<char> {
        match self {
            SpecToken::String(t) => seq!['"'] + t + seq!['"'],
            _ => self.text(),
        }
    }
}

/// Whether all tokens of `ts` are well formed.
pub open spec fn all_well_formed(ts: Seq<SpecToken>) -> bool {
    forall|i: int| 0 <= i < ts.len() ==> (#[trigger] ts[i]).well_formed()
}

/// The tokens of `ts` written as a source text, with one space between
/// each two.
pub open spec fn render(ts: Seq<SpecToken>) -> Seq<char>
    decreases ts.len(),
{
    if ts.len() == 0 {
        Seq::empty()
    } else if ts.len() == 1 {
        ts[0].source_text()
    } else {
        ts[0].source_text() + seq![' '] + render(ts.skip(1))
    }
}

/// The number of double quotes in `s`.
pub open spec fn quote_count(s: Seq<char>) -> nat
    decreases s.len(),
{
    if s.len() == 0 {
        0
    } else if s[0] == '"' {
        1 + quote_count(s.skip(1))
    } else {
        quote_count(s.skip(1))
    }
}

/// The spelling of a keyword is a word that does not begin with a digit.
pub proof fn lemma_spelling_is_word(k: Keyword)
    ensures
        is_word(k.spelling()),
        !is_digit(k.spelling()[0]),
{
    lemma_keyword_spellings();
    let w = k.spelling();
    assert forall|i: int| 0 <= i < w.len() implies !ends_word(#[trigger] w[i]) by {
        assert('a' <= w[i] <= 'z');
    }
}

/// A text that begins with the source text of a well-formed token, and
/// then ends or goes on with a character that ends a word, has that token
/// first and then the tokens of what follows.
pub proof fn lemma_lex_token_then(t: SpecToken, r: Seq<char>)
    requires
        t.well_formed(),
        r.len() == 0 || ends_word(r[0]),
    ensures
        lex(t.source_text() + r) == seq![t] + lex(r),
{
    let s = t.source_text() + r;
    match t {
        SpecToken::Symbol(c) => {
            assert(s[0] == c);
            assert(s.skip(1) =~= r);
        },
        SpecToken::String(body) => {
            let n = body.len() as int;
            assert(s[0] == '"');
            assert(s[n + 1] == '"');
            assert forall|k: int| 1 <= k <= n implies #[trigger] s[k] != '"' by {
                assert(s[k] == body[k - 1]);
            }
            lemma_lex_string(s, n);
            assert(s.subrange(1, n + 1) =~= body);
            assert(s.skip(n + 2) =~= r);
        },
        _ => {
            let w = t.source_text();
            if let SpecToken::Keyword(k) = t {
                lemma_spelling_is_word(k);
                lemma_keyword_spelling_round_trip(k, w);
            }
            let n = w.len() as int;
            assert(is_word(w));
            assert forall|k: int| 0 <= k < n implies !ends_word(#[trigger] s[k]) by {
                assert(s[k] == w[k]);
            }
            if n < s.len() {
                assert(s[n] == r[0]);
            }
            lemma_lex_word(s, n);
            assert(s.take(n) =~= w);
            assert(s.skip(n) =~= r);
            assert(classify(w) == t);
        },
    }
}

/// The lexer reads back what was written: the tokens of the source text
/// of well-formed tokens are those tokens.
pub proof fn lemma_lex_render(ts: Seq<SpecToken>)
    requires
        all_well_formed(ts),
    ensures
        lex(render(ts)) == ts,
    decreases ts.len(),
{
    if ts.len() == 0 {
        assert(lex(render(ts)) =~= ts);
    } else if ts.len() == 1 {
        lemma_lex_token_then(ts[0], Seq::empty());
        assert(ts[0].source_text() + Seq::<char>::empty() =~= ts[0].source_text());
        assert(seq![ts[0]] + lex(Seq::<char>::empty()) =~= ts);
    } else {
        let others = ts.skip(1);
        let r = seq![' '] + render(others);
        assert(all_well_formed(others)) by {
            assert forall|i: int| 0 <= i < others.len() implies (
            #[trigger] others[i]).well_formed() by {
                assert(others[i] == ts[i + 1]);
            }
        }
        lemma_lex_render(others);
        assert(r[0] == ' ');
        lemma_lex_token_then(ts[0], r);
        assert(r.skip(1) =~= render(others));
        assert(lex(r) == lex(render(others)));
        assert(render(ts) =~= ts[0].source_text() + r);
        assert(seq![ts[0]] + others =~= ts);
    }
}

/// A prefix without double quotes adds nothing to the number of double
/// quotes.
proof fn lemma_quote_count_skip(s: Seq<char>, n: int)
    requires
        0 <= n <= s.len(),
        forall|k: int| 0 <= k < n ==> #[trigger] s[k] != '"',
    ensures
        quote_count(s.skip(n)) == quote_count(s),
    decreases n,
{
    if n == 0 {
        assert(s.skip(0) =~= s);
    } else {
        let t = s.skip(1);
        assert(s[0] != '"');
        assert forall|k: int| 0 <= k < n - 1 implies #[trigger] t[k] != '"' by {
            assert(t[k] == s[k + 1]);
        }
        lemma_quote_count_skip(t, n - 1);
        assert(t.skip(n - 1) =~= s.skip(n));
    }
}

/// The tokens of a text in which every string is closed, that is, of a
/// text with an even number of double quotes, are well formed.
pub proof fn lemma_lex_well_formed(s: Seq<char>)
    requires
        quote_count(s) % 2 == 0,
    ensures
        all_well_formed(lex(s)),
    decreases s.len(),
{
    if s.len() == 0 {
    } else if is_symbol(s[0]) || is_whitespace(s[0]) && s[0] != '"' {
        lemma_lex_well_formed(s.skip(1));
    } else if s[0] == '"' {
        let body = s.skip(1);
        let n = unquoted_len(body);
        lemma_unquoted_len(body);
        lemma_quote_count_skip(body, n as int);
        if n < body.len() {
            let after = body.skip(n as int);
            assert(after[0] == '"');
            assert(after.skip(1) =~= body.skip(n as int + 1));
            lemma_lex_well_formed(body.skip(n as int + 1));
            let first = SpecToken::String(body.take(n as int));
            assert(first.well_formed());
            let others = lex(body.skip(n as int + 1));
            assert forall|i: int| 0 <= i < lex(s).len() implies (
            #[trigger] lex(s)[i]).well_formed() by {
                if i > 0 {
                    assert(lex(s)[i] == others[i - 1]);
                }
            }
        } else {
            assert(body.skip(n as int) =~= Seq::<char>::empty());
            assert(quote_count(body) == 0);
        }
    } else {
        let n = word_len(s);
        lemma_word_len(s);
        let w = s.take(n as int);
        assert forall|k: int| 0 <= k < n implies #[trigger] s[k] != '"' by {
            assert(!ends_word(s[k]));
        }
        lemma_quote_count_skip(s, n as int);
        lemma_lex_well_formed(s.skip(n as int));
        assert(is_word(w)) by {
            assert forall|k: int| 0 <= k < w.len() implies !ends_word(#[trigger] w[k]) by {
                assert(w[k] == s[k]);
            }
        }
        assert(classify(w).well_formed());
        let others = lex(s.skip(n as int));
        assert forall|i: int| 0 <= i < lex(s).len() implies (
        #[trigger] lex(s)[i]).well_formed() by {
            if i > 0 {
                assert(lex(s)[i] == others[i - 1]);
            }
        }
    }
}

/// Lexing, writing the tokens out and lexing again gives the tokens of the
/// first pass, for every text in which every string is closed.
pub proof fn lemma_relex(s: Seq<char>)
    requires
        quote_count(s) % 2 == 0,
    ensures
        lex(render(lex(s))) == lex(s),
{
    lemma_lex_well_formed(s);
    lemma_lex_render(lex(s));
}

/// The printed texts of the tokens of `ts`, one after another.
pub open spec fn texts(ts: Seq<SpecToken>) -> Seq<char>
    decreases ts.len(),
{
    if ts.len() == 0 {
        Seq::empty()
    } else {
        ts[0].text() + texts(ts.skip(1))
    }
}

/// The characters of `s` that are neither white space nor a double quote,
/// in their order.
pub open spec fn solid(s: Seq<char>) -> Seq<char>
    decreases s.len(),
{
    if s.len() == 0 {
        Seq::empty()
    } else if is_whitespace(s[0]) || s[0] == '"' {
        solid(s.skip(1))
    } else {
        seq![s[0]] + solid(s.skip(1))
    }
}

/// The solid characters of two texts in a row are those of the first and
/// then those of the second.
pub proof fn lemma_solid_add(a: Seq<char>, b: Seq<char>)
    ensures
        solid(a + b) == solid(a) + solid(b),
    decreases a.len(),
{
    if a.len() == 0 {
        assert(a + b =~= b);
        assert(solid(a) + solid(b) =~= solid(b));
    } else {
        assert((a + b).skip(1) =~= a.skip(1) + b);
        lemma_solid_add(a.skip(1), b);
        assert((a + b)[0] == a[0]);
        if is_whitespace(a[0]) || a[0] == '"' {
        } else {
            assert(seq![a[0]] + (solid(a.skip(1)) + solid(b)) =~= (seq![a[0]] + solid(a.skip(1)))
                + solid(b));
        }
    }
}

/// The token that a word becomes is printed as that word.
pub proof fn lemma_classify_text(w: Seq<char>)
    ensures
        classify(w).text() == w,
{
    if let Some(k) = keyword_of(w) {
        lemma_keyword_spelling_round_trip(k, w);
    }
}

/// The lexer neither loses nor invents text: the printed texts of the
/// tokens of `s`, one after another, hold the characters of `s` in their
/// order, but for white space and double quotes.
pub proof fn lemma_lex_keeps_text(s: Seq<char>)
    ensures
        solid(texts(lex(s))) == solid(s),
    decreases s.len(),
{
    if s.len() == 0 {
        assert(texts(lex(s)) =~= s);
    } else if is_symbol(s[0]) {
        let tail = s.skip(1);
        lemma_lex_keeps_text(tail);
        let one = seq![s[0]];
        assert(lex(s).skip(1) =~= lex(tail));
        assert(texts(lex(s)) == one + texts(lex(tail)));
        lemma_solid_add(one, texts(lex(tail)));
        assert(s =~= one + tail);
        lemma_solid_add(one, tail);
    } else if s[0] == '"' {
        let body = s.skip(1);
        let n = unquoted_len(body) as int;
        lemma_unquoted_len(body);
        if n < body.len() {
            let inner = body.take(n);
            let after = body.skip(n + 1);
            lemma_lex_keeps_text(after);
            assert(lex(s).skip(1) =~= lex(after));
            assert(texts(lex(s)) == inner + texts(lex(after)));
            lemma_solid_add(inner, texts(lex(after)));
            assert(body =~= inner + body.skip(n));
            lemma_solid_add(inner, body.skip(n));
            assert(body.skip(n).skip(1) =~= after);
            assert(solid(body.skip(n)) == solid(after));
            assert(solid(s) == solid(body));
        } else if body.len() > 0 {
            lemma_classify_text(body);
            assert(lex(s).skip(1) =~= Seq::<SpecToken>::empty());
            assert(texts(lex(s)) =~= body + texts(Seq::<SpecToken>::empty()));
            assert(texts(lex(s)) =~= body);
        } else {
            assert(texts(lex(s)) =~= body);
        }
    } else if is_whitespace(s[0]) {
        lemma_lex_keeps_text(s.skip(1));
    } else {
        let n = word_len(s) as int;
        lemma_word_len(s);
        let w = s.take(n);
        let after = s.skip(n);
        lemma_lex_keeps_text(after);
        lemma_classify_text(w);
        assert(lex(s).skip(1) =~= lex(after));
        assert(texts(lex(s)) == w + texts(lex(after)));
        lemma_solid_add(w, texts(lex(after)));
        assert(s =~= w + after);
        lemma_solid_add(w, after);
    }
}

impl Token {
    /// The text that the token is written as in a source: its printed text,
    /// and for a string that text between double quotes.
    pub fn to_source(&self) -> (r: String)
        ensures
            r@ == self@.source_text(),
    {
        match self {
            Token::String(t) => {
                let mut s = String::new();
                s.push('"');
                s.append(t.as_str());
                s.push('"');
                assert(s@ =~= seq!['"'] + t@ + seq!['"']);
                s
            },
            _ => self.to_string(),
        }
    }
}

/// Writing one more token at the end adds a space, unless it is the first
/// token, and the token's source text.
pub proof fn lemma_render_push(ts: Seq<SpecToken>, t: SpecToken)
    ensures
        render(ts.push(t)) == if ts.len() == 0 {
            t.source_text()
        } else {
            render(ts) + seq![' '] + t.source_text()
        },
    decreases ts.len(),
{
    let all = ts.push(t);
    if ts.len() == 0 {
    } else {
        let others = ts.skip(1);
        assert(all.skip(1) =~= others.push(t));
        lemma_render_push(others, t);
        if ts.len() == 1 {
            assert(render(all) =~= render(ts) + seq![' '] + t.source_text());
        } else {
            assert(render(all) =~= render(ts) + seq![' '] + t.source_text());
        }
    }
}

/// Writes `tokens` as a source text, with one space between each two.
pub fn render_tokens(tokens: &Vec<Token>) -> (r: String)
    ensures
        r@ == render(tokens.deep_view()),
{
    let ghost all = tokens.deep_view();
    let mut out = String::new();
    let mut i: usize = 0;
    while i < tokens.len()
        invariant
            all == tokens.deep_view(),
            i <= tokens.len(),
            out@ == render(all.take(i as int)),
        decreases tokens.len() - i,
    {
        proof {
            lemma_render_push(all.take(i as int), all[i as int]);
            assert(all.take(i as int).push(all[i as int]) =~= all.take(i + 1));
        }
        if i > 0 {
            out.push(' ');
        }
        out.append(tokens[i].to_source().as_str());
        i = i + 1;
    }
    assert(all.take(i as int) =~= all);
    out
}

} // verus!
