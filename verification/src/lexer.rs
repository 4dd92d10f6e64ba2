//! The lexer: source text to tokens.

use vstd::prelude::*;
use crate::text::{chars_of, reads, string_of};
use crate::token::{token_views, Token, TokenView};

verus! {

/// The classes of characters of which the lexer consumes whole runs.
#[derive(Clone, Copy, Debug, PartialEq, Eq)]
pub enum CharClass {
    /// Letters, digits and the underscore: the characters of a word.
    Word,
    /// The decimal digits.
    Digit,
    /// Everything but the line feed: the characters of a comment.
    Comment,
}

/// An ASCII letter.
pub open spec fn is_letter(c: char) -> bool {
    ('a' <= c && c <= 'z') || ('A' <= c && c <= 'Z')
}

/// A decimal digit.
pub open spec fn is_digit(c: char) -> bool {
    '0' <= c && c <= '9'
}

/// A character with which a keyword or identifier may start.
pub open spec fn is_word_start(c: char) -> bool {
    is_letter(c) || c == '_'
}

/// One of the six separators.
pub open spec fn is_separator(c: char) -> bool {
    c == '{' || c == '}' || c == '(' || c == ')' || c == ';' || c == ','
}

/// An operator that is always a single character.
pub open spec fn is_plain_operator(c: char) -> bool {
    c == '~' || c == '+' || c == '-' || c == '*'
}

/// An operator that counts only when doubled (`&&`, `||`).
pub open spec fn is_doubling_operator(c: char) -> bool {
    c == '&' || c == '|'
}

/// An operator that may be followed by `=` to form a second operator.
pub open spec fn is_comparing_operator(c: char) -> bool {
    c == '!' || c == '=' || c == '<' || c == '>'
}

/// Whether `c` belongs to `class`.
pub open spec fn in_class(class: CharClass, c: char) -> bool {
    match class {
        CharClass::Word => is_word_start(c) || is_digit(c),
        CharClass::Digit => is_digit(c),
        CharClass::Comment => c != '\n',
    }
}

/// The reserved words.
pub open spec fn is_keyword(word: Seq<char>) -> bool {
    ||| word == "if"@
    ||| word == "else"@
    ||| word == "for"@
    ||| word == "while"@
    ||| word == "break"@
    ||| word == "continue"@
    ||| word == "return"@
    ||| word == "int"@
    ||| word == "char"@
    ||| word == "void"@
}

/// How many characters of `class` stand in a row in `s` from index `from` on.
pub open spec fn run_len(s: Seq<char>, from: int, class: CharClass) -> nat
    decreases s.len() - from,
{
    if 0 <= from < s.len() && in_class(class, s[from]) {
        1 + run_len(s, from + 1, class)
    } else {
        0
    }
}

/// The characters of `s` that are still to be read at index `at`.
pub open spec fn unread(s: Seq<char>, at: int) -> nat {
    if 0 <= at < s.len() {
        (s.len() - at) as nat
    } else {
        0
    }
}

/// What stands at index `at` of `s`: the token that starts there, if one
/// does, and how many characters it, or what is skipped there, takes up
/// beyond the first.
///
/// A word is a keyword or an identifier; digits form an integer literal;
/// `//` opens a comment that runs up to the next line feed or the end of
/// the text; a single `&` or `|` and every character not named here yield
/// no token.
pub open spec fn token_at(s: Seq<char>, at: int) -> (Option<TokenView>, nat)
    recommends
        0 <= at < s.len(),
{
    let c = s[at];
    let doubled = at + 1 < s.len() && s[at + 1] == c;
    let assigned = at + 1 < s.len() && s[at + 1] == '=';
    if is_word_start(c) {
        let more = run_len(s, at + 1, CharClass::Word);
        let word = s.subrange(at, at + 1 + more);
        if is_keyword(word) {
            (Some(TokenView::Keyword(word)), more)
        } else {
            (Some(TokenView::Identifier(word)), more)
        }
    } else if is_digit(c) {
        let more = run_len(s, at + 1, CharClass::Digit);
        (Some(TokenView::IntLiteral(s.subrange(at, at + 1 + more))), more)
    } else if is_separator(c) {
        (Some(TokenView::Separator(c)), 0)
    } else if is_plain_operator(c) {
        (Some(TokenView::Operator(seq![c])), 0)
    } else if c == '/' {
        if doubled {
            (None, 1 + run_len(s, at + 2, CharClass::Comment))
        } else {
            (Some(TokenView::Operator(seq![c])), 0)
        }
    } else if is_doubling_operator(c) {
        if doubled {
            (Some(TokenView::Operator(seq![c, c])), 1)
        } else {
            (None, 0)
        }
    } else if is_comparing_operator(c) {
        if assigned {
            (Some(TokenView::Operator(seq![c, '='])), 1)
        } else {
            (Some(TokenView::Operator(seq![c])), 0)
        }
    } else {
        (None, 0)
    }
}

/// The tokens of `s` from index `at` on, closed by `Eof`.
pub open spec fn lex_from(s: Seq<char>, at: int) -> Seq<TokenView>
    decreases unread(s, at),
{
    if 0 <= at < s.len() {
        let (token, more) = token_at(s, at);
        let rest = lex_from(s, at + 1 + more);
        match token {
            Some(t) => seq![t] + rest,
            None => rest,
        }
    } else {
        seq![TokenView::Eof]
    }
}

/// The tokens of the source text `s`: what [`lexer`] returns.
pub open spec fn lex(s: Seq<char>) -> Seq<TokenView> {
    lex_from(s, 0)
}

/// A run never reaches past the end of the text.
pub proof fn lemma_run_len_bound(s: Seq<char>, from: int, class: CharClass)
    requires
        0 <= from <= s.len(),
    ensures
        from + run_len(s, from, class) <= s.len(),
    decreases s.len() - from,
{
    if from < s.len() && in_class(class, s[from]) {
        lemma_run_len_bound(s, from + 1, class);
    }
}

/// What is read or skipped at an index of the text ends within the text,
/// and no token found there is `Eof`.
pub proof fn lemma_token_at_bound(s: Seq<char>, at: int)
    requires
        0 <= at < s.len(),
    ensures
        at + 1 + token_at(s, at).1 <= s.len(),
        token_at(s, at).0 != Some(TokenView::Eof),
{
    lemma_run_len_bound(s, at + 1, CharClass::Word);
    lemma_run_len_bound(s, at + 1, CharClass::Digit);
    if at + 2 <= s.len() {
        lemma_run_len_bound(s, at + 2, CharClass::Comment);
    }
}

/// Lexing always ends with `Eof`, and `Eof` stands nowhere else.
pub proof fn lemma_lex_from_ends_with_single_eof(s: Seq<char>, at: int)
    ensures
        lex_from(s, at).len() >= 1,
        lex_from(s, at).last() == TokenView::Eof,
        forall|i: int| 0 <= i < lex_from(s, at).len() - 1 ==> lex_from(s, at)[i] != TokenView::Eof,
    decreases unread(s, at),
{
    if 0 <= at < s.len() {
        lemma_token_at_bound(s, at);
        lemma_lex_from_ends_with_single_eof(s, at + 1 + token_at(s, at).1);
    }
}

/// Every source text lexes to a sequence that ends with exactly one `Eof`.
pub proof fn lemma_lex_ends_with_single_eof(s: Seq<char>)
    ensures
        lex(s).len() >= 1,
        lex(s).last() == TokenView::Eof,
        forall|i: int| 0 <= i < lex(s).len() - 1 ==> lex(s)[i] != TokenView::Eof,
{
    lemma_lex_from_ends_with_single_eof(s, 0);
}

/// Whether `c` belongs to `class`.
pub fn char_in_class(class: CharClass, c: char) -> (yes: bool)
    ensures
        yes == in_class(class, c),
{
    let digit = c >= '0' && c <= '9';
    let letter = (c >= 'a' && c <= 'z') || (c >= 'A' && c <= 'Z');
    match class {
        CharClass::Word => letter || c == '_' || digit,
        CharClass::Digit => digit,
        CharClass::Comment => c != '\n',
    }
}

/// The index at which the run of `class` that starts at `from` ends.
pub fn run_end(chars: &Vec<char>, from: usize, class: CharClass) -> (end: usize)
    requires
        from <= chars.len(),
    ensures
        end == from + run_len(chars@, from as int, class),
        end <= chars.len(),
{
    let mut end: usize = from;
    while end < chars.len() && char_in_class(class, chars[end])
        invariant
            from <= end <= chars.len(),
            run_len(chars@, from as int, class) == (end - from) + run_len(
                chars@,
                end as int,
                class,
            ),
        decreases chars.len() - end,
    {
        end += 1;
    }
    end
}

/// Whether `word` is one of the reserved words.
pub fn is_reserved(word: &String) -> (yes: bool)
    ensures
        yes == is_keyword(word@),
{
    reads(word, "if") || reads(word, "else") || reads(word, "for") || reads(word, "while")
        || reads(word, "break") || reads(word, "continue") || reads(word, "return")
        || reads(word, "int") || reads(word, "char") || reads(word, "void")
}

/// An operator token of the one character `c`, or of `c` and `second`.
fn operator(c: char, second: Option<char>) -> (token: Token)
    ensures
        token@ == TokenView::Operator(
            match second {
                Some(d) => seq![c, d],
                None => seq![c],
            },
        ),
{
    let mut text = String::new();
    text.push(c);
    match second {
        Some(d) => {
            text.push(d);
            assert(text@ =~= seq![c, d]);
        },
        None => {
            assert(text@ =~= seq![c]);
        },
    }
    Token::Operator(text)
}

/// Reads what stands at index `at`: the token there, if any, and the index
/// at which reading goes on.
pub fn scan_token(chars: &Vec<char>, at: usize) -> (found: (Option<Token>, usize))
    requires
        at < chars.len(),
    ensures
        found.1 == at + 1 + token_at(chars@, at as int).1,
        found.1 <= chars.len(),
        match found.0 {
            Some(token) => token_at(chars@, at as int).0 == Some(token@),
            None => token_at(chars@, at as int).0 is None,
        },
{
    proof {
        lemma_token_at_bound(chars@, at as int);
    }
    let c = chars[at];
    let doubled = at + 1 < chars.len() && chars[at + 1] == c;
    let assigned = at + 1 < chars.len() && chars[at + 1] == '=';
    if char_in_class(CharClass::Word, c) && !char_in_class(CharClass::Digit, c) {
        let end = run_end(chars, at + 1, CharClass::Word);
        let word = string_of(chars, at, end);
        if is_reserved(&word) {
            (Some(Token::Keyword(word)), end)
        } else {
            (Some(Token::Identifier(word)), end)
        }
    } else if char_in_class(CharClass::Digit, c) {
        let end = run_end(chars, at + 1, CharClass::Digit);
        (Some(Token::IntLiteral(string_of(chars, at, end))), end)
    } else if c == '{' || c == '}' || c == '(' || c == ')' || c == ';' || c == ',' {
        (Some(Token::Separator(c)), at + 1)
    } else if c == '~' || c == '+' || c == '-' || c == '*' {
        (Some(operator(c, None)), at + 1)
    } else if c == '/' {
        if doubled {
            (None, run_end(chars, at + 2, CharClass::Comment))
        } else {
            (Some(operator(c, None)), at + 1)
        }
    } else if c == '&' || c == '|' {
        if doubled {
            (Some(operator(c, Some(c))), at + 2)
        } else {
            (None, at + 1)
        }
    } else if c == '!' || c == '=' || c == '<' || c == '>' {
        if assigned {
            (Some(operator(c, Some('='))), at + 2)
        } else {
            (Some(operator(c, None)), at + 1)
        }
    } else {
        (None, at + 1)
    }
}

/// Splits source text into tokens.
///
/// Never fails: characters that start no token are skipped. The result is
/// exactly [`lex`] of the text; in particular it ends with `Eof`, which
/// stands nowhere else in it.
pub fn lexer(s: String) -> (tokens: Vec<Token>)
    ensures
        token_views(tokens@) == lex(s@),
        tokens.len() >= 1,
        tokens@.last() == Token::Eof,
        forall|i: int| 0 <= i < tokens.len() - 1 ==> tokens[i] != Token::Eof,
{
    let chars = chars_of(s.as_str());
    let mut tokens: Vec<Token> = Vec::new();
    let mut at: usize = 0;
    while at < chars.len()
        invariant
            at <= chars.len(),
            token_views(tokens@) + lex_from(chars@, at as int) == lex(chars@),
        decreases chars.len() - at,
    {
        let (token, next) = scan_token(&chars, at);
        let ghost before = token_views(tokens@);
        match token {
            Some(t) => {
                tokens.push(t);
                assert(token_views(tokens@) =~= before + seq![t@]);
                assert((before + seq![t@]) + lex_from(chars@, next as int) =~= before + (seq![t@]
                    + lex_from(chars@, next as int)));
            },
            None => {},
        }
        at = next;
    }
    let ghost before = token_views(tokens@);
    tokens.push(Token::Eof);
    proof {
        assert(token_views(tokens@) =~= before + seq![TokenView::Eof]);
        lemma_lex_ends_with_single_eof(s@);
        let all = token_views(tokens@);
        assert(tokens@.last()@ == all.last());
        assert forall|i: int| 0 <= i < tokens.len() - 1 implies tokens[i] != Token::Eof by {
            assert(all[i] == tokens[i]@);
        }
    }
    tokens
}

} // verus!
