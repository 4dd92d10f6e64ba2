//! The grammar of the language, as functions from tokens to syntax trees.
//!
//! Each function here reads a sequence of tokens from a position on and
//! gives either what stands there, with the number of tokens it spans, or
//! the first failure: what was expected, and the position of the token that
//! was found instead. The executable parser is proved to compute exactly
//! these functions.

use vstd::prelude::*;
use crate::ast::{
    BinaryOp, BlockItemView, DeclarationView, ExpressionView, ParameterView, ProgramView,
    StatementView, Type, UnaryOp,
};
use crate::token::TokenView;

verus! {

/// What the parser expected where it stopped.
#[derive(Clone, Copy, Debug, PartialEq, Eq)]
pub enum ParseErrorKind {
    /// A declaration must start with a keyword.
    ExpectedType,
    /// The keyword does not name a type that is allowed here.
    InvalidType,
    /// A name must follow the type.
    ExpectedIdentifier,
    /// A variable cannot have the type `void`.
    VoidVariable,
    /// A variable must be given an initial value.
    ExpectedInitializer,
    /// After the name of a declaration, `(` or `=` must follow.
    ExpectedFunctionOrVariable,
    /// After a parameter, `,` or `)` must follow.
    ExpectedComma,
    /// In a block, this keyword starts neither a declaration nor a statement.
    ExpectedDeclarationOrStatement,
    /// `;` must follow.
    ExpectedSemicolon,
    /// `(` must follow.
    ExpectedOpenParen,
    /// `)` must follow.
    ExpectedCloseParen,
    /// This keyword starts no statement.
    InvalidKeyword,
    /// No statement starts with this token.
    ExpectedStatement,
    /// No expression starts with this token.
    ExpectedExpression,
    /// The integer literal is not a decimal number of 32 bits.
    InvalidInteger,
    /// This operator does not stand between two operands.
    InvalidOperator,
    /// After an argument, `,` or `)` must follow.
    ExpectedCommaOrParen,
}

/// A failure of the grammar: what was expected, and the position of the
/// token that is not it (the number of tokens, where they ran out).
pub struct ParseFailure {
    pub kind: ParseErrorKind,
    pub at: int,
}

/// The outcome of reading one construct: its value and the number of tokens
/// it spans, or the failure.
pub type Parsed<T> = Result<(T, nat), ParseFailure>;

/// The failure `kind` at position `at`.
pub open spec fn fail<T>(kind: ParseErrorKind, at: int) -> Parsed<T> {
    Err(ParseFailure { kind, at })
}

/// The token at position `at`, if there is one.
pub open spec fn token(toks: Seq<TokenView>, at: int) -> Option<TokenView> {
    if 0 <= at < toks.len() {
        Some(toks[at])
    } else {
        None
    }
}

/// The number of tokens from position `at` on; before the first token,
/// counted from there. It measures how far a parse can still go.
pub open spec fn unread(toks: Seq<TokenView>, at: int) -> nat {
    if at < toks.len() {
        (toks.len() - at) as nat
    } else {
        0
    }
}

/// Whether the separator `c` stands at position `at`.
pub open spec fn separator_at(toks: Seq<TokenView>, at: int, c: char) -> bool {
    token(toks, at) == Some(TokenView::Separator(c))
}

/// Whether the keyword `word` stands at position `at`.
pub open spec fn keyword_at(toks: Seq<TokenView>, at: int, word: Seq<char>) -> bool {
    token(toks, at) == Some(TokenView::Keyword(word))
}

/// Whether the operator `symbol` stands at position `at`.
pub open spec fn operator_at(toks: Seq<TokenView>, at: int, symbol: Seq<char>) -> bool {
    token(toks, at) == Some(TokenView::Operator(symbol))
}

/// Whether an identifier stands at position `at`.
pub open spec fn identifier_at(toks: Seq<TokenView>, at: int) -> bool {
    token(toks, at) matches Some(TokenView::Identifier(_))
}

/// Whether a keyword stands at position `at`.
pub open spec fn any_keyword_at(toks: Seq<TokenView>, at: int) -> bool {
    token(toks, at) matches Some(TokenView::Keyword(_))
}

/// The type that a keyword names, if it names one.
pub open spec fn type_named(word: Seq<char>) -> Option<Type> {
    if word == "int"@ {
        Some(Type::Int)
    } else if word == "char"@ {
        Some(Type::Char)
    } else if word == "void"@ {
        Some(Type::Void)
    } else {
        None
    }
}

/// Whether a keyword starts a statement.
pub open spec fn starts_statement(word: Seq<char>) -> bool {
    ||| word == "if"@
    ||| word == "while"@
    ||| word == "for"@
    ||| word == "return"@
    ||| word == "break"@
    ||| word == "continue"@
}

/// The infix operator that an operator token stands for, if it is one.
pub open spec fn binary_operator(symbol: Seq<char>) -> Option<BinaryOp> {
    if symbol == "+"@ {
        Some(BinaryOp::Add)
    } else if symbol == "-"@ {
        Some(BinaryOp::Sub)
    } else if symbol == "*"@ {
        Some(BinaryOp::Multiply)
    } else if symbol == "/"@ {
        Some(BinaryOp::Divide)
    } else if symbol == "&&"@ {
        Some(BinaryOp::And)
    } else if symbol == "||"@ {
        Some(BinaryOp::Or)
    } else if symbol == "=="@ {
        Some(BinaryOp::Equal)
    } else if symbol == "!="@ {
        Some(BinaryOp::NotEqual)
    } else if symbol == "<"@ {
        Some(BinaryOp::LessThan)
    } else if symbol == "<="@ {
        Some(BinaryOp::LessThanOrEqual)
    } else if symbol == ">"@ {
        Some(BinaryOp::GreaterThan)
    } else if symbol == ">="@ {
        Some(BinaryOp::GreaterThanOrEqual)
    } else {
        None
    }
}

/// The prefix operator that an operator token stands for, if it is one.
pub open spec fn unary_operator(symbol: Seq<char>) -> Option<UnaryOp> {
    if symbol == "-"@ {
        Some(UnaryOp::Negate)
    } else if symbol == "!"@ {
        Some(UnaryOp::Not)
    } else {
        None
    }
}

/// How an expression may go on after an operand.
pub enum Continuation {
    /// `=`: the operand is assigned to.
    Assign,
    /// An infix operator.
    Binary(BinaryOp),
    /// An operator that does not stand between two operands.
    Invalid,
    /// No operator, or no token at all: the expression is complete.
    End,
}

/// What the token `t` means after an operand. Only an operator makes the
/// expression go on; any other token ends it and is left to what follows
/// the expression.
pub open spec fn continuation(t: Option<TokenView>) -> Continuation {
    match t {
        Some(TokenView::Operator(symbol)) => if symbol == "="@ {
            Continuation::Assign
        } else {
            match binary_operator(symbol) {
                Some(operator) => Continuation::Binary(operator),
                None => Continuation::Invalid,
            }
        },
        _ => Continuation::End,
    }
}

/// How strongly an infix operator binds to its left and to its right.
///
/// From weakest to strongest: `||`, `&&`, `== !=`, `< <= > >=`, `+ -`,
/// `* /`. The right side binds a little more strongly than the left, so
/// that operators of one level group from the left.
pub open spec fn binding_power(operator: BinaryOp) -> (u8, u8) {
    match operator {
        BinaryOp::Or => (10, 11),
        BinaryOp::And => (20, 21),
        BinaryOp::Equal | BinaryOp::NotEqual => (30, 31),
        BinaryOp::LessThan
        | BinaryOp::LessThanOrEqual
        | BinaryOp::GreaterThan
        | BinaryOp::GreaterThanOrEqual => (40, 41),
        BinaryOp::Add | BinaryOp::Sub => (50, 51),
        BinaryOp::Multiply | BinaryOp::Divide => (60, 61),
    }
}

/// How strongly a prefix operator binds: more strongly than any infix one.
pub open spec fn unary_binding_power() -> u8 {
    70
}

/// Whether every character of `text` is a decimal digit.
pub open spec fn all_digits(text: Seq<char>) -> bool {
    forall|i: int| 0 <= i < text.len() ==> '0' <= #[trigger] text[i] && text[i] <= '9'
}

/// The number that a sequence of decimal digits denotes.
pub open spec fn decimal_value(digits: Seq<char>) -> nat
    decreases digits.len(),
{
    if digits.len() == 0 {
        0
    } else {
        (10 * decimal_value(digits.drop_last()) + (digits.last() as nat - '0' as nat)) as nat
    }
}

/// The value of an integer literal: that of its digits, where there is at
/// least one, all are digits, and the number fits 32 bits with a sign.
pub open spec fn integer_of(text: Seq<char>) -> Option<i32> {
    if text.len() > 0 && all_digits(text) && decimal_value(text) <= i32::MAX {
        Some(decimal_value(text) as i32)
    } else {
        None
    }
}

/// `p`, counted from `skipped` tokens earlier.
pub open spec fn after<T>(skipped: nat, p: Parsed<T>) -> Parsed<T> {
    match p {
        Ok((value, n)) => Ok((value, skipped + n)),
        Err(failure) => Err(failure),
    }
}

/// `p`, counted from `skipped` tokens earlier and with `front` before what
/// it found.
pub open spec fn prepend<T>(front: Seq<T>, skipped: nat, p: Parsed<Seq<T>>) -> Parsed<Seq<T>> {
    match p {
        Ok((rest, n)) => Ok((front + rest, skipped + n)),
        Err(failure) => Err(failure),
    }
}

/// Putting one value before the rest and then more before that is putting
/// them all before the rest.
pub proof fn lemma_prepend_twice<T>(
    front: Seq<T>,
    first: T,
    skipped: nat,
    more: nat,
    p: Parsed<Seq<T>>,
)
    ensures
        prepend(front, skipped, prepend(seq![first], more, p)) == prepend(
            front.push(first),
            skipped + more,
            p,
        ),
{
    if let Ok((rest, n)) = p {
        assert(front + (seq![first] + rest) =~= front.push(first) + rest);
    }
}

/// The parameters of a function from position `at`, which follows `(`, up
/// to and with the closing `)`.
pub open spec fn parse_params(toks: Seq<TokenView>, at: int) -> Parsed<Seq<ParameterView>> {
    if separator_at(toks, at, ')') {
        Ok((Seq::empty(), 1))
    } else {
        parse_more_params(toks, at)
    }
}

/// One parameter at position `at` and those that follow it, up to and with
/// the closing `)`.
#[verifier::opaque]
pub open spec fn parse_more_params(toks: Seq<TokenView>, at: int) -> Parsed<Seq<ParameterView>>
    decreases unread(toks, at),
{
    match token(toks, at) {
        Some(TokenView::Keyword(word)) => match type_named(word) {
            Some(Type::Int) | Some(Type::Char) => match token(toks, at + 1) {
                Some(TokenView::Identifier(name)) => {
                    let first = ParameterView { name, var_type: type_named(word)->0 };
                    if separator_at(toks, at + 2, ',') {
                        prepend(seq![first], 3, parse_more_params(toks, at + 3))
                    } else if separator_at(toks, at + 2, ')') {
                        Ok((seq![first], 3))
                    } else {
                        fail(ParseErrorKind::ExpectedComma, at + 2)
                    }
                },
                _ => fail(ParseErrorKind::ExpectedIdentifier, at + 1),
            },
            _ => fail(ParseErrorKind::InvalidType, at),
        },
        _ => fail(ParseErrorKind::ExpectedType, at),
    }
}

/// The operand at position `at`: an integer literal, a variable, a call, a
/// prefix operator with its operand, or an expression in parentheses.
#[verifier::opaque]
pub open spec fn parse_operand(toks: Seq<TokenView>, at: int) -> Parsed<ExpressionView>
    decreases unread(toks, at), 0nat,
{
    match token(toks, at) {
        Some(TokenView::IntLiteral(text)) => match integer_of(text) {
            Some(n) => Ok((ExpressionView::IntLiteral(n), 1)),
            None => fail(ParseErrorKind::InvalidInteger, at),
        },
        Some(TokenView::Identifier(name)) => if separator_at(toks, at + 1, '(') {
            after(1, parse_call(toks, at + 1, name))
        } else {
            Ok((ExpressionView::Variable(name), 1))
        },
        Some(TokenView::Operator(symbol)) => match unary_operator(symbol) {
            Some(operator) => match parse_expression(toks, at + 1, unary_binding_power()) {
                Ok((oper, n)) => Ok(
                    (ExpressionView::Unary { operator, oper: Box::new(oper) }, 1 + n),
                ),
                Err(failure) => Err(failure),
            },
            None => fail(ParseErrorKind::ExpectedExpression, at),
        },
        Some(TokenView::Separator(c)) => if c == '(' {
            match parse_expression(toks, at + 1, 0) {
                Ok((inner, n)) => if separator_at(toks, at + 1 + n, ')') {
                    Ok((inner, 2 + n))
                } else {
                    fail(ParseErrorKind::ExpectedCloseParen, at + 1 + n)
                },
                Err(failure) => Err(failure),
            }
        } else {
            fail(ParseErrorKind::ExpectedExpression, at)
        },
        _ => fail(ParseErrorKind::ExpectedExpression, at),
    }
}

/// The expression at position `at` that binds at least as strongly as
/// `min_bp` on its left: an operand ([`parse_operand`]), and what follows
/// it ([`parse_infix`]).
#[verifier::opaque]
pub open spec fn parse_expression(toks: Seq<TokenView>, at: int, min_bp: u8) -> Parsed<
    ExpressionView,
>
    decreases unread(toks, at), 1nat,
{
    match parse_operand(toks, at) {
        Ok((left, n)) => after(n, parse_infix(toks, at + n, min_bp, left)),
        Err(failure) => Err(failure),
    }
}

/// How an expression goes on at position `at`, after the operand `left`.
///
/// `=` makes `left` the target of an assignment whose value is the whole
/// expression that follows, so that assignments group from the right and
/// bind most weakly. An infix operator that binds less strongly than
/// `min_bp` ends the expression, as does every token that is no operator,
/// and the end of the tokens; none of them is read. Any other infix
/// operator takes `left` and the expression to its right as its operands,
/// and the result is the new left operand.
#[verifier::opaque]
pub open spec fn parse_infix(
    toks: Seq<TokenView>,
    at: int,
    min_bp: u8,
    left: ExpressionView,
) -> Parsed<ExpressionView>
    decreases unread(toks, at), 0nat,
{
    match continuation(token(toks, at)) {
        Continuation::Assign => match parse_expression(toks, at + 1, 0) {
            Ok((value, n)) => Ok(
                (ExpressionView::Assign { target: Box::new(left), value: Box::new(value) }, 1 + n),
            ),
            Err(failure) => Err(failure),
        },
        Continuation::Binary(operator) => if binding_power(operator).0 < min_bp {
            Ok((left, 0))
        } else {
            match parse_expression(toks, at + 1, binding_power(operator).1) {
                Ok((right, n)) => after(
                    1 + n,
                    parse_infix(
                        toks,
                        at + 1 + n,
                        min_bp,
                        ExpressionView::Binary {
                            operator,
                            left_oper: Box::new(left),
                            right_oper: Box::new(right),
                        },
                    ),
                ),
                Err(failure) => Err(failure),
            }
        },
        Continuation::End => Ok((left, 0)),
        Continuation::Invalid => fail(ParseErrorKind::InvalidOperator, at),
    }
}

/// The call of `name` whose `(` stands at position `at`.
#[verifier::opaque]
pub open spec fn parse_call(toks: Seq<TokenView>, at: int, name: Seq<char>) -> Parsed<
    ExpressionView,
>
    decreases unread(toks, at), 0nat,
{
    if !separator_at(toks, at, '(') {
        fail(ParseErrorKind::ExpectedOpenParen, at)
    } else if separator_at(toks, at + 1, ')') {
        Ok((ExpressionView::Call { name, args: Seq::empty() }, 2))
    } else {
        match parse_arguments(toks, at + 1) {
            Ok((args, n)) => Ok((ExpressionView::Call { name, args }, 1 + n)),
            Err(failure) => Err(failure),
        }
    }
}

/// One argument at position `at` and those that follow it, up to and with
/// the closing `)`.
#[verifier::opaque]
pub open spec fn parse_arguments(toks: Seq<TokenView>, at: int) -> Parsed<Seq<ExpressionView>>
    decreases unread(toks, at), 2nat,
{
    match parse_expression(toks, at, 0) {
        Ok((first, n)) => if separator_at(toks, at + n, ',') {
            prepend(seq![first], n + 1, parse_arguments(toks, at + n + 1))
        } else if separator_at(toks, at + n, ')') {
            Ok((seq![first], n + 1))
        } else {
            fail(ParseErrorKind::ExpectedCommaOrParen, at + n)
        },
        Err(failure) => Err(failure),
    }
}

/// The expression at position `at` and the `;` that must follow it.
#[verifier::opaque]
pub open spec fn parse_terminated(toks: Seq<TokenView>, at: int) -> Parsed<ExpressionView>
    decreases unread(toks, at), 2nat,
{
    match parse_expression(toks, at, 0) {
        Ok((value, n)) => if separator_at(toks, at + n, ';') {
            Ok((value, n + 1))
        } else {
            fail(ParseErrorKind::ExpectedSemicolon, at + n)
        },
        Err(failure) => Err(failure),
    }
}

/// The condition in parentheses whose `(` must stand at position `at`.
#[verifier::opaque]
pub open spec fn parse_condition(toks: Seq<TokenView>, at: int) -> Parsed<ExpressionView>
    decreases unread(toks, at), 2nat,
{
    if !separator_at(toks, at, '(') {
        fail(ParseErrorKind::ExpectedOpenParen, at)
    } else {
        match parse_expression(toks, at + 1, 0) {
            Ok((cond, n)) => if separator_at(toks, at + 1 + n, ')') {
                Ok((cond, n + 2))
            } else {
                fail(ParseErrorKind::ExpectedCloseParen, at + 1 + n)
            },
            Err(failure) => Err(failure),
        }
    }
}

/// The declaration at position `at`: a type, a name, and then either `(`
/// with a function's parameters and body, or `=` with a variable's initial
/// value and `;`.
#[verifier::opaque]
pub open spec fn parse_declaration(toks: Seq<TokenView>, at: int) -> Parsed<DeclarationView>
    decreases unread(toks, at), 0nat,
{
    match token(toks, at) {
        Some(TokenView::Keyword(word)) => match type_named(word) {
            Some(declared) => match token(toks, at + 1) {
                Some(TokenView::Identifier(name)) => match token(toks, at + 2) {
                    Some(TokenView::Separator(c)) => if c == '(' {
                        after(3, parse_function(toks, at + 3, name, declared))
                    } else if c == ';' {
                        fail(ParseErrorKind::ExpectedInitializer, at + 2)
                    } else {
                        fail(ParseErrorKind::ExpectedFunctionOrVariable, at + 2)
                    },
                    Some(TokenView::Operator(symbol)) => if symbol == "="@ {
                        if declared == Type::Void {
                            fail(ParseErrorKind::VoidVariable, at + 2)
                        } else {
                            after(3, parse_variable(toks, at + 3, name, declared))
                        }
                    } else {
                        fail(ParseErrorKind::ExpectedFunctionOrVariable, at + 2)
                    },
                    _ => fail(ParseErrorKind::ExpectedFunctionOrVariable, at + 2),
                },
                _ => fail(ParseErrorKind::ExpectedIdentifier, at + 1),
            },
            None => fail(ParseErrorKind::InvalidType, at),
        },
        _ => fail(ParseErrorKind::ExpectedType, at),
    }
}

/// The rest of a function declaration from position `at`, which follows
/// `(`: the parameters and the body.
#[verifier::opaque]
pub open spec fn parse_function(
    toks: Seq<TokenView>,
    at: int,
    name: Seq<char>,
    ret_type: Type,
) -> Parsed<DeclarationView>
    decreases unread(toks, at), 4nat,
{
    match parse_params(toks, at) {
        Ok((params, n)) => match parse_statement(toks, at + n) {
            Ok((body, m)) => Ok(
                (DeclarationView::Function { name, ret_type, params, body: Box::new(body) }, n + m),
            ),
            Err(failure) => Err(failure),
        },
        Err(failure) => Err(failure),
    }
}

/// The rest of a variable declaration from position `at`, which follows
/// `=`: the initial value and `;`.
#[verifier::opaque]
pub open spec fn parse_variable(
    toks: Seq<TokenView>,
    at: int,
    name: Seq<char>,
    var_type: Type,
) -> Parsed<DeclarationView>
    decreases unread(toks, at), 3nat,
{
    match parse_terminated(toks, at) {
        Ok((init, n)) => Ok((DeclarationView::InitVariable { name, var_type, init }, n)),
        Err(failure) => Err(failure),
    }
}

/// The statement at position `at`: a block, an expression with `;`, or one
/// of the statements that start with a keyword.
#[verifier::opaque]
pub open spec fn parse_statement(toks: Seq<TokenView>, at: int) -> Parsed<StatementView>
    decreases unread(toks, at), 3nat,
{
    match token(toks, at) {
        Some(TokenView::Separator(c)) => if c == '{' {
            match parse_block_items(toks, at + 1) {
                Ok((items, n)) => Ok((StatementView::Block { items }, 1 + n)),
                Err(failure) => Err(failure),
            }
        } else {
            fail(ParseErrorKind::ExpectedStatement, at)
        },
        Some(TokenView::Identifier(_)) => match parse_terminated(toks, at) {
            Ok((value, n)) => Ok((StatementView::Expr(value), n)),
            Err(failure) => Err(failure),
        },
        Some(TokenView::Keyword(word)) => if word == "return"@ {
            after(1, parse_return(toks, at + 1))
        } else if word == "break"@ {
            if separator_at(toks, at + 1, ';') {
                Ok((StatementView::Break, 2))
            } else {
                fail(ParseErrorKind::ExpectedSemicolon, at + 1)
            }
        } else if word == "continue"@ {
            if separator_at(toks, at + 1, ';') {
                Ok((StatementView::Continue, 2))
            } else {
                fail(ParseErrorKind::ExpectedSemicolon, at + 1)
            }
        } else if word == "if"@ {
            after(1, parse_if(toks, at + 1))
        } else if word == "while"@ {
            after(1, parse_while(toks, at + 1))
        } else if word == "for"@ {
            after(1, parse_for(toks, at + 1))
        } else {
            fail(ParseErrorKind::InvalidKeyword, at)
        },
        _ => fail(ParseErrorKind::ExpectedStatement, at),
    }
}

/// The rest of a `return` statement from position `at`, which follows
/// `return`: `;`, or a value and `;`.
#[verifier::opaque]
pub open spec fn parse_return(toks: Seq<TokenView>, at: int) -> Parsed<StatementView>
    decreases unread(toks, at), 3nat,
{
    if separator_at(toks, at, ';') {
        Ok((StatementView::Return(None), 1))
    } else {
        match parse_terminated(toks, at) {
            Ok((value, n)) => Ok((StatementView::Return(Some(value)), n)),
            Err(failure) => Err(failure),
        }
    }
}

/// The rest of an `if` statement from position `at`, which follows `if`:
/// the condition, the statement to run where it holds, and after `else`,
/// where that stands, the statement to run where it does not.
#[verifier::opaque]
pub open spec fn parse_if(toks: Seq<TokenView>, at: int) -> Parsed<StatementView>
    decreases unread(toks, at), 4nat,
{
    match parse_condition(toks, at) {
        Ok((cond, n)) => match parse_statement(toks, at + n) {
            Ok((then_branch, m)) => if keyword_at(toks, at + n + m, "else"@) {
                match parse_statement(toks, at + n + m + 1) {
                    Ok((else_branch, k)) => Ok(
                        (
                            StatementView::If {
                                cond,
                                then_branch: Box::new(then_branch),
                                else_branch: Some(Box::new(else_branch)),
                            },
                            n + m + 1 + k,
                        ),
                    ),
                    Err(failure) => Err(failure),
                }
            } else {
                Ok(
                    (
                        StatementView::If {
                            cond,
                            then_branch: Box::new(then_branch),
                            else_branch: None,
                        },
                        n + m,
                    ),
                )
            },
            Err(failure) => Err(failure),
        },
        Err(failure) => Err(failure),
    }
}

/// The rest of a `while` statement from position `at`, which follows
/// `while`: the condition and the body.
#[verifier::opaque]
pub open spec fn parse_while(toks: Seq<TokenView>, at: int) -> Parsed<StatementView>
    decreases unread(toks, at), 4nat,
{
    match parse_condition(toks, at) {
        Ok((cond, n)) => match parse_statement(toks, at + n) {
            Ok((body, m)) => Ok((StatementView::While { cond, body: Box::new(body) }, n + m)),
            Err(failure) => Err(failure),
        },
        Err(failure) => Err(failure),
    }
}

/// The rest of a `for` statement from position `at`, which follows `for`:
/// in parentheses a declaration (which ends with its own `;`), a condition
/// with `;` and an expression, all three required, and then the body.
#[verifier::opaque]
pub open spec fn parse_for(toks: Seq<TokenView>, at: int) -> Parsed<StatementView>
    decreases unread(toks, at), 4nat,
{
    if !separator_at(toks, at, '(') {
        fail(ParseErrorKind::ExpectedOpenParen, at)
    } else {
        match parse_declaration(toks, at + 1) {
            Ok((init, n)) => match parse_terminated(toks, at + 1 + n) {
                Ok((cond, m)) => match parse_expression(toks, at + 1 + n + m, 0) {
                    Ok((inc, k)) => if !separator_at(toks, at + 1 + n + m + k, ')') {
                        fail(ParseErrorKind::ExpectedCloseParen, at + 1 + n + m + k)
                    } else {
                        match parse_statement(toks, at + 2 + n + m + k) {
                            Ok((body, j)) => Ok(
                                (
                                    StatementView::For { init, cond, inc, body: Box::new(body) },
                                    2 + n + m + k + j,
                                ),
                            ),
                            Err(failure) => Err(failure),
                        }
                    },
                    Err(failure) => Err(failure),
                },
                Err(failure) => Err(failure),
            },
            Err(failure) => Err(failure),
        }
    }
}

/// The item of a block at position `at`: a declaration where a type
/// keyword stands, a statement where a keyword that starts one or `{`
/// stands, and else an expression with its `;`.
#[verifier::opaque]
pub open spec fn parse_block_item(toks: Seq<TokenView>, at: int) -> Parsed<BlockItemView>
    decreases unread(toks, at), 4nat,
{
    match token(toks, at) {
        Some(TokenView::Keyword(word)) => if type_named(word) is Some {
            match parse_declaration(toks, at) {
                Ok((decl, n)) => Ok((BlockItemView::Decl(decl), n)),
                Err(failure) => Err(failure),
            }
        } else if starts_statement(word) {
            match parse_statement(toks, at) {
                Ok((stmt, n)) => Ok((BlockItemView::Stmt(stmt), n)),
                Err(failure) => Err(failure),
            }
        } else {
            fail(ParseErrorKind::ExpectedDeclarationOrStatement, at)
        },
        Some(TokenView::Separator('{')) => match parse_statement(toks, at) {
            Ok((stmt, n)) => Ok((BlockItemView::Stmt(stmt), n)),
            Err(failure) => Err(failure),
        },
        _ => match parse_terminated(toks, at) {
            Ok((value, n)) => Ok((BlockItemView::Stmt(StatementView::Expr(value)), n)),
            Err(failure) => Err(failure),
        },
    }
}

/// The items of a block from position `at`, which follows `{`, up to and
/// with the closing `}`.
///
/// An item spans at least one token ([`lemma_block_item_spans_tokens`]);
/// `max(n, 1)` makes that plain where the definition needs it to be
/// well-founded, and never differs from `n`.
#[verifier::opaque]
pub open spec fn parse_block_items(toks: Seq<TokenView>, at: int) -> Parsed<Seq<BlockItemView>>
    decreases unread(toks, at), 5nat,
{
    match token(toks, at) {
        None => fail(ParseErrorKind::ExpectedStatement, at),
        Some(t) => if t == TokenView::Separator('}') {
            Ok((Seq::empty(), 1))
        } else {
            match parse_block_item(toks, at) {
                Ok((first, n)) => prepend(
                    seq![first],
                    n,
                    parse_block_items(toks, at + vstd::math::max(n as int, 1)),
                ),
                Err(failure) => Err(failure),
            }
        },
    }
}

/// A declaration spans at least three tokens, all of them there.
pub proof fn lemma_declaration_spans_tokens(toks: Seq<TokenView>, at: int)
    ensures
        parse_declaration(toks, at) matches Ok((_, n)) ==> n >= 3 && 0 <= at < toks.len(),
{
    reveal(parse_declaration);
}

/// A statement spans at least one token.
pub proof fn lemma_statement_spans_tokens(toks: Seq<TokenView>, at: int)
    ensures
        parse_statement(toks, at) matches Ok((_, n)) ==> n >= 1,
{
    reveal(parse_statement);
    reveal(parse_terminated);
}

/// An item of a block spans at least one token.
pub proof fn lemma_block_item_spans_tokens(toks: Seq<TokenView>, at: int)
    ensures
        parse_block_item(toks, at) matches Ok((_, n)) ==> n >= 1,
{
    reveal(parse_block_item);
    reveal(parse_declaration);
    reveal(parse_statement);
    reveal(parse_terminated);
    lemma_declaration_spans_tokens(toks, at);
    lemma_statement_spans_tokens(toks, at);
}

/// The items of a block are the first item and the items after it: the
/// rule of [`parse_block_items`], without the `max`.
pub proof fn lemma_block_items_follow_the_first(toks: Seq<TokenView>, at: int)
    requires
        token(toks, at) is Some,
        token(toks, at) != Some(TokenView::Separator('}')),
    ensures
        parse_block_items(toks, at) == match parse_block_item(toks, at) {
            Ok((first, n)) => prepend(seq![first], n, parse_block_items(toks, at + n)),
            Err(failure) => Err(failure),
        },
{
    reveal(parse_block_items);
    reveal(parse_block_item);
    lemma_block_item_spans_tokens(toks, at);
}

/// The declarations from position `at` up to `Eof`, which is not read.
#[verifier::opaque]
pub open spec fn parse_declarations(toks: Seq<TokenView>, at: int) -> Parsed<
    Seq<DeclarationView>,
>
    decreases unread(toks, at),
{
    if token(toks, at) == Some(TokenView::Eof) {
        Ok((Seq::empty(), 0))
    } else {
        match parse_declaration(toks, at) {
            Ok((first, n)) => {
                proof {
                    lemma_declaration_spans_tokens(toks, at);
                }
                prepend(seq![first], n, parse_declarations(toks, at + n))
            },
            Err(failure) => Err(failure),
        }
    }
}

/// The program from position `at`: declarations up to `Eof`.
pub open spec fn parse_program(toks: Seq<TokenView>, at: int) -> Parsed<ProgramView> {
    match parse_declarations(toks, at) {
        Ok((items, n)) => Ok((ProgramView { items }, n)),
        Err(failure) => Err(failure),
    }
}

} // verus!
