use compiler::lexer::lexer;
use compiler::token::Token;

fn kw(s: &str) -> Token {
    Token::Keyword(s.to_string())
}

fn id(s: &str) -> Token {
    Token::Identifier(s.to_string())
}

fn num(s: &str) -> Token {
    Token::IntLiteral(s.to_string())
}

fn op(s: &str) -> Token {
    Token::Operator(s.to_string())
}

fn sep(c: char) -> Token {
    Token::Separator(c)
}

fn lex(source: &str) -> Vec<Token> {
    lexer(source.to_string())
}

#[test]
fn lexes_a_declaration() {
    assert_eq!(
        lex("int x = 1 + 2 * 3;"),
        vec![
            kw("int"),
            id("x"),
            op("="),
            num("1"),
            op("+"),
            num("2"),
            op("*"),
            num("3"),
            sep(';'),
            Token::Eof
        ]
    );
}

#[test]
fn skips_a_line_comment() {
    assert_eq!(lex("1 // comment\n2"), vec![num("1"), num("2"), Token::Eof]);
}

#[test]
fn empty_text_is_only_eof() {
    assert_eq!(lex(""), vec![Token::Eof]);
    assert_eq!(lex("  \t\r\n "), vec![Token::Eof]);
}

#[test]
fn comment_without_line_end_runs_to_the_end() {
    assert_eq!(lex("x // no newline"), vec![id("x"), Token::Eof]);
    assert_eq!(lex("//"), vec![Token::Eof]);
    assert_eq!(lex("// a\n// b\n"), vec![Token::Eof]);
}

#[test]
fn a_single_slash_is_an_operator() {
    assert_eq!(lex("a / b"), vec![id("a"), op("/"), id("b"), Token::Eof]);
    assert_eq!(lex("/"), vec![op("/"), Token::Eof]);
    assert_eq!(lex("/ /"), vec![op("/"), op("/"), Token::Eof]);
}

#[test]
fn all_ten_keywords_are_keywords() {
    assert_eq!(
        lex("if else for while break continue return int char void"),
        vec![
            kw("if"),
            kw("else"),
            kw("for"),
            kw("while"),
            kw("break"),
            kw("continue"),
            kw("return"),
            kw("int"),
            kw("char"),
            kw("void"),
            Token::Eof
        ]
    );
}

#[test]
fn words_that_only_resemble_keywords_are_identifiers() {
    assert_eq!(
        lex("iff If integer _int int_ while1 x_1 _"),
        vec![
            id("iff"),
            id("If"),
            id("integer"),
            id("_int"),
            id("int_"),
            id("while1"),
            id("x_1"),
            id("_"),
            Token::Eof
        ]
    );
}

#[test]
fn digits_then_letters_are_two_tokens() {
    assert_eq!(lex("12ab"), vec![num("12"), id("ab"), Token::Eof]);
    assert_eq!(lex("ab12"), vec![id("ab12"), Token::Eof]);
    assert_eq!(lex("007"), vec![num("007"), Token::Eof]);
}

#[test]
fn separators_are_single_characters() {
    assert_eq!(
        lex("{}();,"),
        vec![sep('{'), sep('}'), sep('('), sep(')'), sep(';'), sep(','), Token::Eof]
    );
}

#[test]
fn plain_operators_never_join() {
    assert_eq!(
        lex("~+-*++--"),
        vec![op("~"), op("+"), op("-"), op("*"), op("+"), op("+"), op("-"), op("-"), Token::Eof]
    );
}

#[test]
fn doubled_operators_need_both_characters() {
    assert_eq!(lex("a && b || c"), vec![id("a"), op("&&"), id("b"), op("||"), id("c"), Token::Eof]);
    assert_eq!(lex("a & b | c"), vec![id("a"), id("b"), id("c"), Token::Eof]);
    assert_eq!(lex("&&&"), vec![op("&&"), Token::Eof]);
    assert_eq!(lex("&|"), vec![Token::Eof]);
    assert_eq!(lex("|||| |"), vec![op("||"), op("||"), Token::Eof]);
}

#[test]
fn comparing_operators_take_a_following_equals_sign() {
    assert_eq!(
        lex("= == ! != < <= > >="),
        vec![op("="), op("=="), op("!"), op("!="), op("<"), op("<="), op(">"), op(">="), Token::Eof]
    );
    assert_eq!(lex("==="), vec![op("=="), op("="), Token::Eof]);
    assert_eq!(lex("<<="), vec![op("<"), op("<="), Token::Eof]);
    assert_eq!(lex("!!="), vec![op("!"), op("!="), Token::Eof]);
    assert_eq!(lex("=<"), vec![op("="), op("<"), Token::Eof]);
}

#[test]
fn unknown_characters_are_skipped() {
    assert_eq!(lex("a @ b # $ c"), vec![id("a"), id("b"), id("c"), Token::Eof]);
    assert_eq!(lex("x.y"), vec![id("x"), id("y"), Token::Eof]);
    assert_eq!(lex("'a' \"s\" [1] % ^ ? :"), vec![id("a"), id("s"), num("1"), Token::Eof]);
}

#[test]
fn characters_beyond_ascii_are_skipped() {
    assert_eq!(lex("é x ß 1 \u{4e2d} \u{1F600}"), vec![id("x"), num("1"), Token::Eof]);
    assert_eq!(lex("a\u{a0}b"), vec![id("a"), id("b"), Token::Eof]);
    assert_eq!(lex("xéy"), vec![id("x"), id("y"), Token::Eof]);
    assert_eq!(lex("\u{0663}"), vec![Token::Eof]);
}

#[test]
fn eof_comes_last_and_only_once() {
    for source in ["", "x", "int main() { return 0; }", "// c", "& | @", "1 // c\n2"] {
        let tokens = lex(source);
        assert_eq!(tokens.last(), Some(&Token::Eof));
        assert_eq!(tokens.iter().filter(|t| **t == Token::Eof).count(), 1);
    }
}

#[test]
fn lexes_a_small_function() {
    assert_eq!(
        lex("int f(int a, char b) {\n  if (a <= 1) return a; // done\n  return f(a - 1, b);\n}"),
        vec![
            kw("int"),
            id("f"),
            sep('('),
            kw("int"),
            id("a"),
            sep(','),
            kw("char"),
            id("b"),
            sep(')'),
            sep('{'),
            kw("if"),
            sep('('),
            id("a"),
            op("<="),
            num("1"),
            sep(')'),
            kw("return"),
            id("a"),
            sep(';'),
            kw("return"),
            id("f"),
            sep('('),
            id("a"),
            op("-"),
            num("1"),
            sep(','),
            id("b"),
            sep(')'),
            sep(';'),
            sep('}'),
            Token::Eof
        ]
    );
}
