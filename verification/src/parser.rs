//! The parser: tokens to a syntax tree, by recursive descent, with
//! precedence climbing for expressions.

use vstd::prelude::*;
use crate::ast::{
    block_item_views, declaration_views, expression_views, lemma_block_view, lemma_call_view,
    parameter_views, BinaryOp, BlockItem, Declaration, Expression, Parameter, Program, Statement,
    Type, UnaryOp,
};
use crate::grammar;
use crate::grammar::{
    any_keyword_at, binary_operator, binding_power, identifier_at, keyword_at,
    lemma_block_item_spans_tokens, lemma_declaration_spans_tokens, lemma_prepend_twice,
    operator_at, prepend, separator_at, starts_statement, token, type_named, unary_operator,
    unread, Continuation, ParseErrorKind, ParseFailure, Parsed,
};
use crate::number::integer_value;
use crate::text::reads;
use crate::token::{token_views, Token, TokenView};

verus! {

/// Why parsing stopped: what was expected, and the index of the token that
/// was found instead (the number of tokens, where they ran out).
#[derive(Clone, Copy, Debug, PartialEq, Eq)]
pub struct ParseError {
    pub kind: ParseErrorKind,
    pub at: usize,
}

impl View for ParseError {
    type V = ParseFailure;

    open spec fn view(&self) -> ParseFailure {
        ParseFailure { kind: self.kind, at: self.at as int }
    }
}

/// Whether the outcome `result` of a parsing function, which found the
/// cursor at `from` and left it at `to`, is what the grammar says:
/// the value with the cursor after its last token, or the failure with the
/// cursor on the token that failed.
pub open spec fn agrees<T: View>(
    result: Result<T, ParseError>,
    expected: Parsed<T::V>,
    from: int,
    to: int,
) -> bool {
    match expected {
        Ok((value, n)) => result matches Ok(found) && found@ == value && to == from + n,
        Err(failure) => result matches Err(error) && error@ == failure && to == failure.at,
    }
}

/// As [`agrees`], for a result whose value is taken by `value_of`.
pub open spec fn agrees_by<T, V>(
    result: Result<T, ParseError>,
    expected: Parsed<V>,
    from: int,
    to: int,
    value_of: spec_fn(T) -> V,
) -> bool {
    match expected {
        Ok((value, n)) => result matches Ok(found) && value_of(found) == value && to == from + n,
        Err(failure) => result matches Err(error) && error@ == failure && to == failure.at,
    }
}

/// A sequence of tokens with a cursor into it.
pub struct Parser {
    tokens: Vec<Token>,
    pos: usize,
}

impl Parser {
    /// The tokens that this parser reads.
    pub closed spec fn tokens(&self) -> Seq<TokenView> {
        token_views(self.tokens@)
    }

    /// The index of the token that is read next.
    pub closed spec fn position(&self) -> int {
        self.pos as int
    }

    /// The index of the token that is read next.
    pub fn cursor(&self) -> (at: usize)
        ensures
            at == self.position(),
    {
        self.pos
    }

    /// A parser at the start of `tokens`.
    pub fn new(tokens: Vec<Token>) -> (parser: Parser)
        ensures
            parser.tokens() == token_views(tokens@),
            parser.position() == 0,
    {
        Parser { tokens, pos: 0 }
    }

    /// The token under the cursor, which stays where it is.
    pub fn peek(&self) -> (found: Option<&Token>)
        ensures
            match found {
                Some(t) => token(self.tokens(), self.position()) == Some(t@),
                None => token(self.tokens(), self.position()) is None,
            },
    {
        if self.pos < self.tokens.len() {
            Some(&self.tokens[self.pos])
        } else {
            None
        }
    }

    /// The token `n` places after the cursor, which stays where it is.
    pub fn peek_n(&self, n: usize) -> (found: Option<&Token>)
        ensures
            match found {
                Some(t) => token(self.tokens(), self.position() + n) == Some(t@),
                None => token(self.tokens(), self.position() + n) is None,
            },
    {
        if n < self.tokens.len() && self.pos < self.tokens.len() - n {
            Some(&self.tokens[self.pos + n])
        } else {
            None
        }
    }

    /// The token under the cursor, if there is one; the cursor moves on by
    /// one either way (it stays only where it cannot be counted further).
    pub fn next(&mut self) -> (found: Option<Token>)
        ensures
            final(self).tokens() == old(self).tokens(),
            match found {
                Some(t) => token(old(self).tokens(), old(self).position()) == Some(t@),
                None => token(old(self).tokens(), old(self).position()) is None,
            },
            final(self).position() == if old(self).position() < usize::MAX {
                old(self).position() + 1
            } else {
                old(self).position()
            },
    {
        let found = if self.pos < self.tokens.len() {
            Some(self.tokens[self.pos].clone())
        } else {
            None
        };
        if self.pos < usize::MAX {
            self.pos += 1;
        }
        found
    }

    /// How strongly an infix operator binds to its left and to its right.
    pub fn get_binding_power(operator: &BinaryOp) -> (powers: (u8, u8))
        ensures
            powers == binding_power(*operator),
    {
        match operator {
            BinaryOp::Or => (10, 11),
            BinaryOp::And => (20, 21),
            BinaryOp::Equal | BinaryOp::NotEqual => (30, 31),
            BinaryOp::LessThan
            | BinaryOp::LessThanOrEqual
            | BinaryOp::GreaterThan
            | BinaryOp::GreaterThanOrEqual => (40, 41),
            BinaryOp::Add | BinaryOp::Sub => (50, 51),
            BinaryOp::Multiply | BinaryOp::Divide => (60, 61),
        }
    }

    /// Whether the separator `c` is under the cursor.
    fn at_separator(&self, c: char) -> (yes: bool)
        ensures
            yes == separator_at(self.tokens(), self.position(), c),
    {
        match self.peek() {
            Some(Token::Separator(found)) => *found == c,
            _ => false,
        }
    }

    /// Whether the keyword `word` is under the cursor.
    fn at_keyword(&self, word: &str) -> (yes: bool)
        ensures
            yes == keyword_at(self.tokens(), self.position(), word@),
    {
        match self.peek() {
            Some(Token::Keyword(found)) => reads(found, word),
            _ => false,
        }
    }

    /// Moves the cursor past the token under it.
    fn advance(&mut self)
        requires
            token(old(self).tokens(), old(self).position()) is Some,
        ensures
            final(self).tokens() == old(self).tokens(),
            final(self).position() == old(self).position() + 1,
    {
        if self.pos < self.tokens.len() {
            self.pos += 1;
        }
    }

    /// The failure `kind` at the cursor.
    fn failure<T>(&self, kind: ParseErrorKind) -> (result: Result<T, ParseError>)
        ensures
            result matches Err(error) && error@ == (ParseFailure { kind, at: self.position() }),
    {
        Err(ParseError { kind, at: self.pos })
    }

    /// Moves past the separator `c`, or fails with `kind` where another
    /// token stands.
    fn expect_separator(&mut self, c: char, kind: ParseErrorKind) -> (result: Result<
        (),
        ParseError,
    >)
        ensures
            final(self).tokens() == old(self).tokens(),
            match result {
                Ok(_) => separator_at(old(self).tokens(), old(self).position(), c)
                    && final(self).position() == old(self).position() + 1,
                Err(error) => !separator_at(old(self).tokens(), old(self).position(), c)
                    && error@ == (ParseFailure { kind, at: old(self).position() })
                    && final(self).position() == old(self).position(),
            },
    {
        if self.at_separator(c) {
            self.advance();
            Ok(())
        } else {
            self.failure(kind)
        }
    }

    /// Whether the operator `symbol` is under the cursor.
    fn at_operator(&self, symbol: &str) -> (yes: bool)
        ensures
            yes == operator_at(self.tokens(), self.position(), symbol@),
    {
        match self.peek() {
            Some(Token::Operator(found)) => reads(found, symbol),
            _ => false,
        }
    }

    /// Whether an identifier is under the cursor.
    fn at_identifier(&self) -> (yes: bool)
        ensures
            yes == identifier_at(self.tokens(), self.position()),
    {
        match self.peek() {
            Some(Token::Identifier(_)) => true,
            _ => false,
        }
    }

    /// Whether a keyword is under the cursor.
    fn at_any_keyword(&self) -> (yes: bool)
        ensures
            yes == any_keyword_at(self.tokens(), self.position()),
    {
        match self.peek() {
            Some(Token::Keyword(_)) => true,
            _ => false,
        }
    }

    /// Whether `Eof` is under the cursor.
    fn at_eof(&self) -> (yes: bool)
        ensures
            yes == (token(self.tokens(), self.position()) == Some(TokenView::Eof)),
    {
        match self.peek() {
            Some(Token::Eof) => true,
            _ => false,
        }
    }

    /// What the token under the cursor means after an operand.
    fn continuation(&self) -> (next: Continuation)
        ensures
            next == grammar::continuation(token(self.tokens(), self.position())),
    {
        match self.peek() {
            Some(Token::Operator(symbol)) => {
                if reads(symbol, "=") {
                    Continuation::Assign
                } else {
                    match binary_operator_of(symbol) {
                        Some(operator) => Continuation::Binary(operator),
                        None => Continuation::Invalid,
                    }
                }
            },
            _ => Continuation::End,
        }
    }

    /// Parses one operand: an integer literal, a variable, a call, a prefix
    /// operator with its operand, or an expression in parentheses.
    pub fn parse_operand(&mut self) -> (result: Result<Expression, ParseError>)
        ensures
            final(self).tokens() == old(self).tokens(),
            agrees(
                result,
                grammar::parse_operand(old(self).tokens(), old(self).position()),
                old(self).position(),
                final(self).position(),
            ),
        decreases unread(old(self).tokens(), old(self).position()), 0nat,
    {
        reveal(grammar::parse_operand);
        reveal(grammar::parse_call);
        reveal(grammar::parse_expression);
        match self.peek() {
            Some(Token::IntLiteral(text)) => match integer_value(text) {
                Some(n) => {
                    self.advance();
                    Ok(Expression::IntLiteral(n))
                },
                None => self.failure(ParseErrorKind::InvalidInteger),
            },
            Some(Token::Identifier(name)) => {
                let name = name.clone();
                self.advance();
                if self.at_separator('(') {
                    self.parse_call(name)
                } else {
                    Ok(Expression::Variable(name))
                }
            },
            Some(Token::Operator(symbol)) => match unary_operator_of(symbol) {
                Some(operator) => {
                    self.advance();
                    match self.parse_expression(70) {
                        Ok(oper) => Ok(Expression::Unary { operator, oper: Box::new(oper) }),
                        Err(error) => Err(error),
                    }
                },
                None => self.failure(ParseErrorKind::ExpectedExpression),
            },
            Some(Token::Separator(c)) => {
                if *c == '(' {
                    self.advance();
                    match self.parse_expression(0) {
                        Ok(inner) => match self.expect_separator(
                            ')',
                            ParseErrorKind::ExpectedCloseParen,
                        ) {
                            Ok(_) => Ok(inner),
                            Err(error) => Err(error),
                        },
                        Err(error) => Err(error),
                    }
                } else {
                    self.failure(ParseErrorKind::ExpectedExpression)
                }
            },
            _ => self.failure(ParseErrorKind::ExpectedExpression),
        }
    }

    /// Parses an expression whose infix operators bind at least as strongly
    /// as `min_bp` on their left.
    ///
    /// `1 + 2 * 3` is read as `1 + (2 * 3)`, `1 - 2 - 3` as `(1 - 2) - 3`,
    /// and `a = b = 5` as `a = (b = 5)`.
    pub fn parse_expression(&mut self, min_bp: u8) -> (result: Result<Expression, ParseError>)
        ensures
            final(self).tokens() == old(self).tokens(),
            agrees(
                result,
                grammar::parse_expression(old(self).tokens(), old(self).position(), min_bp),
                old(self).position(),
                final(self).position(),
            ),
        decreases unread(old(self).tokens(), old(self).position()), 1nat,
    {
        reveal(grammar::parse_expression);
        reveal(grammar::parse_operand);
        reveal(grammar::parse_infix);
        let ghost toks = self.tokens();
        let ghost start = self.position();
        let mut left = match self.parse_operand() {
            Ok(operand) => operand,
            Err(error) => {
                return Err(error);
            },
        };
        loop
            invariant
                self.tokens() == toks,
                old(self).tokens() == toks,
                old(self).position() == start,
                start <= self.position(),
                grammar::parse_expression(toks, start, min_bp) == grammar::after(
                    (self.position() - start) as nat,
                    grammar::parse_infix(toks, self.position(), min_bp, left@),
                ),
            decreases unread(toks, self.position()),
        {
            reveal(grammar::parse_expression);
            reveal(grammar::parse_infix);
            match self.continuation() {
                Continuation::Assign => {
                    self.advance();
                    return match self.parse_expression(0) {
                        Ok(value) => Ok(
                            Expression::Assign { target: Box::new(left), value: Box::new(value) },
                        ),
                        Err(error) => Err(error),
                    };
                },
                Continuation::Binary(operator) => {
                    let (left_bp, right_bp) = Self::get_binding_power(&operator);
                    if left_bp < min_bp {
                        return Ok(left);
                    }
                    self.advance();
                    let right = match self.parse_expression(right_bp) {
                        Ok(operand) => operand,
                        Err(error) => {
                            return Err(error);
                        },
                    };
                    left = Expression::Binary {
                        operator,
                        left_oper: Box::new(left),
                        right_oper: Box::new(right),
                    };
                },
                Continuation::End => {
                    return Ok(left);
                },
                Continuation::Invalid => {
                    return self.failure(ParseErrorKind::InvalidOperator);
                },
            }
        }
    }

    /// Parses the call of `name`, with the cursor on its `(`.
    pub fn parse_call(&mut self, name: String) -> (result: Result<Expression, ParseError>)
        ensures
            final(self).tokens() == old(self).tokens(),
            agrees(
                result,
                grammar::parse_call(old(self).tokens(), old(self).position(), name@),
                old(self).position(),
                final(self).position(),
            ),
        decreases unread(old(self).tokens(), old(self).position()), 0nat,
    {
        reveal(grammar::parse_call);
        reveal(grammar::parse_arguments);
        reveal(grammar::parse_expression);
        let ghost toks = self.tokens();
        let ghost entry = self.position();
        match self.expect_separator('(', ParseErrorKind::ExpectedOpenParen) {
            Ok(_) => {},
            Err(error) => {
                return Err(error);
            },
        }
        let mut args: Vec<Expression> = Vec::new();
        if self.at_separator(')') {
            self.advance();
            proof {
                lemma_call_view(name, args);
                assert(expression_views(args@) =~= Seq::empty());
            }
            return Ok(Expression::Call { name, args });
        }
        loop
            invariant
                self.tokens() == toks,
                old(self).tokens() == toks,
                old(self).position() == entry,
                entry < self.position(),
                separator_at(toks, entry, '('),
                !separator_at(toks, entry + 1, ')'),
                grammar::parse_arguments(toks, entry + 1) == prepend(
                    expression_views(args@),
                    (self.position() - entry - 1) as nat,
                    grammar::parse_arguments(toks, self.position()),
                ),
            decreases unread(toks, self.position()),
        {
            reveal(grammar::parse_call);
            reveal(grammar::parse_arguments);
            reveal(grammar::parse_expression);
            let ghost before = expression_views(args@);
            let ghost skipped = (self.position() - entry - 1) as nat;
            let ghost at = self.position();
            let arg = match self.parse_expression(0) {
                Ok(arg) => arg,
                Err(error) => {
                    return Err(error);
                },
            };
            let ghost n = (self.position() - at) as nat;
            args.push(arg);
            proof {
                assert(expression_views(args@) =~= before.push(arg@));
            }
            if self.at_separator(',') {
                self.advance();
                proof {
                    lemma_prepend_twice(
                        before,
                        arg@,
                        skipped,
                        n + 1,
                        grammar::parse_arguments(toks, at + n + 1),
                    );
                }
            } else if self.at_separator(')') {
                self.advance();
                proof {
                    lemma_call_view(name, args);
                    assert(before + seq![arg@] =~= before.push(arg@));
                }
                return Ok(Expression::Call { name, args });
            } else {
                return self.failure(ParseErrorKind::ExpectedCommaOrParen);
            }
        }
    }

    /// Parses an expression and the `;` that must follow it.
    pub fn parse_terminated(&mut self) -> (result: Result<Expression, ParseError>)
        ensures
            final(self).tokens() == old(self).tokens(),
            agrees(
                result,
                grammar::parse_terminated(old(self).tokens(), old(self).position()),
                old(self).position(),
                final(self).position(),
            ),
        decreases unread(old(self).tokens(), old(self).position()), 2nat,
    {
        reveal(grammar::parse_terminated);
        match self.parse_expression(0) {
            Ok(value) => match self.expect_separator(';', ParseErrorKind::ExpectedSemicolon) {
                Ok(_) => Ok(value),
                Err(error) => Err(error),
            },
            Err(error) => Err(error),
        }
    }

    /// Parses a condition in parentheses, with the cursor where its `(`
    /// must stand.
    pub fn parse_condition(&mut self) -> (result: Result<Expression, ParseError>)
        ensures
            final(self).tokens() == old(self).tokens(),
            agrees(
                result,
                grammar::parse_condition(old(self).tokens(), old(self).position()),
                old(self).position(),
                final(self).position(),
            ),
        decreases unread(old(self).tokens(), old(self).position()), 2nat,
    {
        reveal(grammar::parse_condition);
        match self.expect_separator('(', ParseErrorKind::ExpectedOpenParen) {
            Ok(_) => {},
            Err(error) => {
                return Err(error);
            },
        }
        match self.parse_expression(0) {
            Ok(cond) => match self.expect_separator(')', ParseErrorKind::ExpectedCloseParen) {
                Ok(_) => Ok(cond),
                Err(error) => Err(error),
            },
            Err(error) => Err(error),
        }
    }

    /// Parses the parameters of a function, with the cursor after `(`, up
    /// to and with the closing `)`.
    pub fn parse_params(&mut self) -> (result: Result<Vec<Parameter>, ParseError>)
        ensures
            final(self).tokens() == old(self).tokens(),
            agrees_by(
                result,
                grammar::parse_params(old(self).tokens(), old(self).position()),
                old(self).position(),
                final(self).position(),
                |found: Vec<Parameter>| parameter_views(found@),
            ),
    {
        let ghost toks = self.tokens();
        let ghost entry = self.position();
        let mut params: Vec<Parameter> = Vec::new();
        if self.at_separator(')') {
            self.advance();
            assert(parameter_views(params@) =~= Seq::empty());
            return Ok(params);
        }
        loop
            invariant
                self.tokens() == toks,
                old(self).tokens() == toks,
                old(self).position() == entry,
                entry <= self.position(),
                !separator_at(toks, entry, ')'),
                grammar::parse_more_params(toks, entry) == prepend(
                    parameter_views(params@),
                    (self.position() - entry) as nat,
                    grammar::parse_more_params(toks, self.position()),
                ),
            decreases unread(toks, self.position()),
        {
            reveal(grammar::parse_more_params);
            let ghost before = parameter_views(params@);
            let ghost skipped = (self.position() - entry) as nat;
            let ghost at = self.position();
            let var_type = match self.peek() {
                Some(Token::Keyword(word)) => match type_of_keyword(word) {
                    Some(Type::Int) => Type::Int,
                    Some(Type::Char) => Type::Char,
                    _ => {
                        return self.failure(ParseErrorKind::InvalidType);
                    },
                },
                _ => {
                    return self.failure(ParseErrorKind::ExpectedType);
                },
            };
            self.advance();
            let name = match self.peek() {
                Some(Token::Identifier(name)) => name.clone(),
                _ => {
                    return self.failure(ParseErrorKind::ExpectedIdentifier);
                },
            };
            self.advance();
            let param = Parameter { name, var_type };
            params.push(param);
            proof {
                assert(parameter_views(params@) =~= before.push(param@));
            }
            if self.at_separator(',') {
                self.advance();
                proof {
                    lemma_prepend_twice(
                        before,
                        param@,
                        skipped,
                        3,
                        grammar::parse_more_params(toks, at + 3),
                    );
                }
            } else if self.at_separator(')') {
                self.advance();
                proof {
                    assert(before + seq![param@] =~= before.push(param@));
                }
                return Ok(params);
            } else {
                return self.failure(ParseErrorKind::ExpectedComma);
            }
        }
    }

    /// Parses the rest of the declaration of the function `name`, with the
    /// cursor after `(`: the parameters and the body.
    pub fn parse_function(&mut self, name: String, ret_type: Type) -> (result: Result<
        Declaration,
        ParseError,
    >)
        ensures
            final(self).tokens() == old(self).tokens(),
            agrees(
                result,
                grammar::parse_function(
                    old(self).tokens(),
                    old(self).position(),
                    name@,
                    ret_type,
                ),
                old(self).position(),
                final(self).position(),
            ),
        decreases unread(old(self).tokens(), old(self).position()), 4nat,
    {
        reveal(grammar::parse_function);
        reveal(grammar::parse_statement);
        let params = match self.parse_params() {
            Ok(params) => params,
            Err(error) => {
                return Err(error);
            },
        };
        match self.parse_statement() {
            Ok(body) => Ok(Declaration::Function { name, ret_type, params, body: Box::new(body) }),
            Err(error) => Err(error),
        }
    }

    /// Parses the rest of the declaration of the variable `name`, with the
    /// cursor after `=`: the initial value and `;`.
    pub fn parse_variable(&mut self, name: String, var_type: Type) -> (result: Result<
        Declaration,
        ParseError,
    >)
        ensures
            final(self).tokens() == old(self).tokens(),
            agrees(
                result,
                grammar::parse_variable(
                    old(self).tokens(),
                    old(self).position(),
                    name@,
                    var_type,
                ),
                old(self).position(),
                final(self).position(),
            ),
        decreases unread(old(self).tokens(), old(self).position()), 3nat,
    {
        reveal(grammar::parse_variable);
        match self.parse_terminated() {
            Ok(init) => Ok(Declaration::InitVariable { name, var_type, init }),
            Err(error) => Err(error),
        }
    }

    /// Parses a declaration: a function, or a variable with its initial
    /// value.
    ///
    /// A variable without an initial value, such as `int x;`, is refused,
    /// and so is a variable of type `void`.
    pub fn parse_declaration(&mut self) -> (result: Result<Declaration, ParseError>)
        ensures
            final(self).tokens() == old(self).tokens(),
            agrees(
                result,
                grammar::parse_declaration(old(self).tokens(), old(self).position()),
                old(self).position(),
                final(self).position(),
            ),
        decreases unread(old(self).tokens(), old(self).position()), 0nat,
    {
        reveal(grammar::parse_declaration);
        reveal(grammar::parse_function);
        let declared = match self.peek() {
            Some(Token::Keyword(word)) => match type_of_keyword(word) {
                Some(declared) => declared,
                None => {
                    return self.failure(ParseErrorKind::InvalidType);
                },
            },
            _ => {
                return self.failure(ParseErrorKind::ExpectedType);
            },
        };
        self.advance();
        let name = match self.peek() {
            Some(Token::Identifier(name)) => name.clone(),
            _ => {
                return self.failure(ParseErrorKind::ExpectedIdentifier);
            },
        };
        self.advance();
        if self.at_separator('(') {
            self.advance();
            self.parse_function(name, declared)
        } else if self.at_separator(';') {
            self.failure(ParseErrorKind::ExpectedInitializer)
        } else if self.at_operator("=") {
            match declared {
                Type::Void => self.failure(ParseErrorKind::VoidVariable),
                _ => {
                    self.advance();
                    self.parse_variable(name, declared)
                },
            }
        } else {
            self.failure(ParseErrorKind::ExpectedFunctionOrVariable)
        }
    }

    /// Parses a statement.
    pub fn parse_statement(&mut self) -> (result: Result<Statement, ParseError>)
        ensures
            final(self).tokens() == old(self).tokens(),
            agrees(
                result,
                grammar::parse_statement(old(self).tokens(), old(self).position()),
                old(self).position(),
                final(self).position(),
            ),
        decreases unread(old(self).tokens(), old(self).position()), 3nat,
    {
        reveal(grammar::parse_statement);
        reveal(grammar::parse_block_items);
        reveal(grammar::parse_if);
        reveal(grammar::parse_while);
        reveal(grammar::parse_for);
        reveal(grammar::parse_return);
        if self.at_separator('{') {
            self.advance();
            match self.parse_block_items() {
                Ok(items) => {
                    proof {
                        lemma_block_view(items);
                    }
                    Ok(Statement::Block { items })
                },
                Err(error) => Err(error),
            }
        } else if self.at_identifier() {
            match self.parse_terminated() {
                Ok(value) => Ok(Statement::Expr(value)),
                Err(error) => Err(error),
            }
        } else if self.at_keyword("return") {
            self.advance();
            self.parse_return()
        } else if self.at_keyword("break") {
            self.advance();
            match self.expect_separator(';', ParseErrorKind::ExpectedSemicolon) {
                Ok(_) => Ok(Statement::Break),
                Err(error) => Err(error),
            }
        } else if self.at_keyword("continue") {
            self.advance();
            match self.expect_separator(';', ParseErrorKind::ExpectedSemicolon) {
                Ok(_) => Ok(Statement::Continue),
                Err(error) => Err(error),
            }
        } else if self.at_keyword("if") {
            self.advance();
            self.parse_if()
        } else if self.at_keyword("while") {
            self.advance();
            self.parse_while()
        } else if self.at_keyword("for") {
            self.advance();
            self.parse_for()
        } else if self.at_any_keyword() {
            self.failure(ParseErrorKind::InvalidKeyword)
        } else {
            self.failure(ParseErrorKind::ExpectedStatement)
        }
    }

    /// Parses the rest of a `return` statement, with the cursor after
    /// `return`.
    pub fn parse_return(&mut self) -> (result: Result<Statement, ParseError>)
        ensures
            final(self).tokens() == old(self).tokens(),
            agrees(
                result,
                grammar::parse_return(old(self).tokens(), old(self).position()),
                old(self).position(),
                final(self).position(),
            ),
        decreases unread(old(self).tokens(), old(self).position()), 3nat,
    {
        reveal(grammar::parse_return);
        if self.at_separator(';') {
            self.advance();
            Ok(Statement::Return(None))
        } else {
            match self.parse_terminated() {
                Ok(value) => Ok(Statement::Return(Some(value))),
                Err(error) => Err(error),
            }
        }
    }

    /// Parses the rest of an `if` statement, with the cursor after `if`.
    pub fn parse_if(&mut self) -> (result: Result<Statement, ParseError>)
        ensures
            final(self).tokens() == old(self).tokens(),
            agrees(
                result,
                grammar::parse_if(old(self).tokens(), old(self).position()),
                old(self).position(),
                final(self).position(),
            ),
        decreases unread(old(self).tokens(), old(self).position()), 4nat,
    {
        reveal(grammar::parse_if);
        reveal(grammar::parse_statement);
        let cond = match self.parse_condition() {
            Ok(cond) => cond,
            Err(error) => {
                return Err(error);
            },
        };
        let then_branch = match self.parse_statement() {
            Ok(stmt) => stmt,
            Err(error) => {
                return Err(error);
            },
        };
        if self.at_keyword("else") {
            self.advance();
            match self.parse_statement() {
                Ok(else_branch) => Ok(
                    Statement::If {
                        cond,
                        then_branch: Box::new(then_branch),
                        else_branch: Some(Box::new(else_branch)),
                    },
                ),
                Err(error) => Err(error),
            }
        } else {
            Ok(Statement::If { cond, then_branch: Box::new(then_branch), else_branch: None })
        }
    }

    /// Parses the rest of a `while` statement, with the cursor after
    /// `while`.
    pub fn parse_while(&mut self) -> (result: Result<Statement, ParseError>)
        ensures
            final(self).tokens() == old(self).tokens(),
            agrees(
                result,
                grammar::parse_while(old(self).tokens(), old(self).position()),
                old(self).position(),
                final(self).position(),
            ),
        decreases unread(old(self).tokens(), old(self).position()), 4nat,
    {
        reveal(grammar::parse_while);
        reveal(grammar::parse_statement);
        let cond = match self.parse_condition() {
            Ok(cond) => cond,
            Err(error) => {
                return Err(error);
            },
        };
        match self.parse_statement() {
            Ok(body) => Ok(Statement::While { cond, body: Box::new(body) }),
            Err(error) => Err(error),
        }
    }

    /// Parses the rest of a `for` statement, with the cursor after `for`.
    pub fn parse_for(&mut self) -> (result: Result<Statement, ParseError>)
        ensures
            final(self).tokens() == old(self).tokens(),
            agrees(
                result,
                grammar::parse_for(old(self).tokens(), old(self).position()),
                old(self).position(),
                final(self).position(),
            ),
        decreases unread(old(self).tokens(), old(self).position()), 4nat,
    {
        reveal(grammar::parse_for);
        reveal(grammar::parse_declaration);
        reveal(grammar::parse_statement);
        match self.expect_separator('(', ParseErrorKind::ExpectedOpenParen) {
            Ok(_) => {},
            Err(error) => {
                return Err(error);
            },
        }
        let init = match self.parse_declaration() {
            Ok(init) => init,
            Err(error) => {
                return Err(error);
            },
        };
        let cond = match self.parse_terminated() {
            Ok(cond) => cond,
            Err(error) => {
                return Err(error);
            },
        };
        let inc = match self.parse_expression(0) {
            Ok(inc) => inc,
            Err(error) => {
                return Err(error);
            },
        };
        match self.expect_separator(')', ParseErrorKind::ExpectedCloseParen) {
            Ok(_) => {},
            Err(error) => {
                return Err(error);
            },
        }
        match self.parse_statement() {
            Ok(body) => Ok(Statement::For { init, cond, inc, body: Box::new(body) }),
            Err(error) => Err(error),
        }
    }

    /// Parses one item of a block: a declaration where a type keyword
    /// stands, a statement where a keyword that starts one or `{` stands,
    /// and else an expression with its `;`.
    pub fn parse_block_item(&mut self) -> (result: Result<BlockItem, ParseError>)
        ensures
            final(self).tokens() == old(self).tokens(),
            agrees(
                result,
                grammar::parse_block_item(old(self).tokens(), old(self).position()),
                old(self).position(),
                final(self).position(),
            ),
        decreases unread(old(self).tokens(), old(self).position()), 4nat,
    {
        reveal(grammar::parse_block_item);
        reveal(grammar::parse_declaration);
        reveal(grammar::parse_statement);
        let (is_keyword, declares, states) = match self.peek() {
            Some(Token::Keyword(word)) => (
                true,
                type_of_keyword(word).is_some(),
                starts_statement_keyword(word),
            ),
            _ => (false, false, false),
        };
        if is_keyword && declares {
            match self.parse_declaration() {
                Ok(decl) => Ok(BlockItem::Decl(decl)),
                Err(error) => Err(error),
            }
        } else if is_keyword && !states {
            self.failure(ParseErrorKind::ExpectedDeclarationOrStatement)
        } else if is_keyword || self.at_separator('{') {
            match self.parse_statement() {
                Ok(stmt) => Ok(BlockItem::Stmt(stmt)),
                Err(error) => Err(error),
            }
        } else {
            match self.parse_terminated() {
                Ok(value) => Ok(BlockItem::Stmt(Statement::Expr(value))),
                Err(error) => Err(error),
            }
        }
    }

    /// Parses the items of a block, with the cursor after `{`, up to and
    /// with the closing `}`.
    pub fn parse_block_items(&mut self) -> (result: Result<Vec<BlockItem>, ParseError>)
        ensures
            final(self).tokens() == old(self).tokens(),
            agrees_by(
                result,
                grammar::parse_block_items(old(self).tokens(), old(self).position()),
                old(self).position(),
                final(self).position(),
                |found: Vec<BlockItem>| block_item_views(found@),
            ),
        decreases unread(old(self).tokens(), old(self).position()), 5nat,
    {
        reveal(grammar::parse_block_items);
        let ghost toks = self.tokens();
        let ghost entry = self.position();
        let mut items: Vec<BlockItem> = Vec::new();
        proof {
            assert(block_item_views(items@) =~= Seq::empty());
            assert(Seq::<crate::ast::BlockItemView>::empty() + seq![] =~= Seq::empty());
        }
        loop
            invariant
                self.tokens() == toks,
                old(self).tokens() == toks,
                old(self).position() == entry,
                entry <= self.position(),
                grammar::parse_block_items(toks, entry) == prepend(
                    block_item_views(items@),
                    (self.position() - entry) as nat,
                    grammar::parse_block_items(toks, self.position()),
                ),
            decreases unread(toks, self.position()),
        {
            reveal(grammar::parse_block_items);
            reveal(grammar::parse_block_item);
            let ghost before = block_item_views(items@);
            let ghost skipped = (self.position() - entry) as nat;
            let ghost at = self.position();
            if self.at_separator('}') {
                self.advance();
                proof {
                    assert(before + Seq::empty() =~= before);
                }
                return Ok(items);
            }
            if self.peek().is_none() {
                return self.failure(ParseErrorKind::ExpectedStatement);
            }
            let item = match self.parse_block_item() {
                Ok(item) => item,
                Err(error) => {
                    return Err(error);
                },
            };
            let ghost n = (self.position() - at) as nat;
            items.push(item);
            proof {
                lemma_block_item_spans_tokens(toks, at);
                assert(block_item_views(items@) =~= before.push(item@));
                lemma_prepend_twice(
                    before,
                    item@,
                    skipped,
                    n,
                    grammar::parse_block_items(toks, at + n),
                );
            }
        }
    }

    /// Parses a whole program: declarations up to `Eof`.
    pub fn parse_program(&mut self) -> (result: Result<Program, ParseError>)
        ensures
            final(self).tokens() == old(self).tokens(),
            agrees(
                result,
                grammar::parse_program(old(self).tokens(), old(self).position()),
                old(self).position(),
                final(self).position(),
            ),
    {
        let ghost toks = self.tokens();
        let ghost entry = self.position();
        let mut items: Vec<Declaration> = Vec::new();
        proof {
            assert(declaration_views(items@) =~= Seq::empty());
        }
        loop
            invariant
                self.tokens() == toks,
                old(self).tokens() == toks,
                old(self).position() == entry,
                entry <= self.position(),
                grammar::parse_declarations(toks, entry) == prepend(
                    declaration_views(items@),
                    (self.position() - entry) as nat,
                    grammar::parse_declarations(toks, self.position()),
                ),
            decreases unread(toks, self.position()),
        {
            reveal(grammar::parse_declarations);
            let ghost before = declaration_views(items@);
            let ghost skipped = (self.position() - entry) as nat;
            let ghost at = self.position();
            if self.at_eof() {
                proof {
                    assert(before + Seq::empty() =~= before);
                }
                return Ok(Program { items });
            }
            let decl = match self.parse_declaration() {
                Ok(decl) => decl,
                Err(error) => {
                    return Err(error);
                },
            };
            let ghost n = (self.position() - at) as nat;
            items.push(decl);
            proof {
                lemma_declaration_spans_tokens(toks, at);
                assert(declaration_views(items@) =~= before.push(decl@));
                lemma_prepend_twice(
                    before,
                    decl@,
                    skipped,
                    n,
                    grammar::parse_declarations(toks, at + n),
                );
            }
        }
    }
}

/// The type that a keyword names, if it names one.
pub fn type_of_keyword(word: &String) -> (named: Option<Type>)
    ensures
        named == type_named(word@),
{
    if reads(word, "int") {
        Some(Type::Int)
    } else if reads(word, "char") {
        Some(Type::Char)
    } else if reads(word, "void") {
        Some(Type::Void)
    } else {
        None
    }
}

/// The infix operator that an operator token stands for, if it is one.
pub fn binary_operator_of(symbol: &String) -> (operator: Option<BinaryOp>)
    ensures
        operator == binary_operator(symbol@),
{
    if reads(symbol, "+") {
        Some(BinaryOp::Add)
    } else if reads(symbol, "-") {
        Some(BinaryOp::Sub)
    } else if reads(symbol, "*") {
        Some(BinaryOp::Multiply)
    } else if reads(symbol, "/") {
        Some(BinaryOp::Divide)
    } else if reads(symbol, "&&") {
        Some(BinaryOp::And)
    } else if reads(symbol, "||") {
        Some(BinaryOp::Or)
    } else if reads(symbol, "==") {
        Some(BinaryOp::Equal)
    } else if reads(symbol, "!=") {
        Some(BinaryOp::NotEqual)
    } else if reads(symbol, "<") {
        Some(BinaryOp::LessThan)
    } else if reads(symbol, "<=") {
        Some(BinaryOp::LessThanOrEqual)
    } else if reads(symbol, ">") {
        Some(BinaryOp::GreaterThan)
    } else if reads(symbol, ">=") {
        Some(BinaryOp::GreaterThanOrEqual)
    } else {
        None
    }
}

/// The prefix operator that an operator token stands for, if it is one.
pub fn unary_operator_of(symbol: &String) -> (operator: Option<UnaryOp>)
    ensures
        operator == unary_operator(symbol@),
{
    if reads(symbol, "-") {
        Some(UnaryOp::Negate)
    } else if reads(symbol, "!") {
        Some(UnaryOp::Not)
    } else {
        None
    }
}

/// Whether a keyword starts a statement.
pub fn starts_statement_keyword(word: &String) -> (yes: bool)
    ensures
        yes == starts_statement(word@),
{
    reads(word, "if") || reads(word, "while") || reads(word, "for") || reads(word, "return")
        || reads(word, "break") || reads(word, "continue")
}

} // verus!
