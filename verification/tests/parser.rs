use compiler::ast::{
    BinaryOp, BlockItem, Declaration, Expression, Parameter, Program, Statement, Type, UnaryOp,
};
use compiler::grammar::ParseErrorKind;
use compiler::lexer::lexer;
use compiler::parser::{ParseError, Parser};
use compiler::token::Token;

fn parser_of(source: &str) -> Parser {
    Parser::new(lexer(source.to_string()))
}

fn expression(source: &str) -> Result<Expression, ParseError> {
    parser_of(source).parse_expression(0)
}

fn statement(source: &str) -> Result<Statement, ParseError> {
    parser_of(source).parse_statement()
}

fn declaration(source: &str) -> Result<Declaration, ParseError> {
    parser_of(source).parse_declaration()
}

fn program(source: &str) -> Result<Program, ParseError> {
    parser_of(source).parse_program()
}

fn stops<T: std::fmt::Debug>(result: Result<T, ParseError>, kind: ParseErrorKind, at: usize) {
    match result {
        Err(error) => assert_eq!(error, ParseError { kind, at }),
        Ok(value) => panic!("parsed as {:?}", value),
    }
}

fn lit(n: i32) -> Expression {
    Expression::IntLiteral(n)
}

fn var(name: &str) -> Expression {
    Expression::Variable(name.to_string())
}

fn bin(operator: BinaryOp, left: Expression, right: Expression) -> Expression {
    Expression::Binary { operator, left_oper: Box::new(left), right_oper: Box::new(right) }
}

fn un(operator: UnaryOp, oper: Expression) -> Expression {
    Expression::Unary { operator, oper: Box::new(oper) }
}

fn assign(target: Expression, value: Expression) -> Expression {
    Expression::Assign { target: Box::new(target), value: Box::new(value) }
}

fn call(name: &str, args: Vec<Expression>) -> Expression {
    Expression::Call { name: name.to_string(), args }
}

fn block(items: Vec<BlockItem>) -> Statement {
    Statement::Block { items }
}

fn stmt(s: Statement) -> BlockItem {
    BlockItem::Stmt(s)
}

fn int_var(name: &str, init: Expression) -> Declaration {
    Declaration::InitVariable { name: name.to_string(), var_type: Type::Int, init }
}

#[test]
fn multiplication_binds_more_strongly_than_addition() {
    assert_eq!(
        expression("1 + 2 * 3;"),
        Ok(bin(BinaryOp::Add, lit(1), bin(BinaryOp::Multiply, lit(2), lit(3))))
    );
    assert_eq!(
        expression("1 * 2 + 3;"),
        Ok(bin(BinaryOp::Add, bin(BinaryOp::Multiply, lit(1), lit(2)), lit(3)))
    );
}

#[test]
fn assignment_groups_from_the_right() {
    assert_eq!(expression("a = b = 5;"), Ok(assign(var("a"), assign(var("b"), lit(5)))));
}

#[test]
fn operators_of_one_level_group_from_the_left() {
    assert_eq!(
        expression("1 - 2 - 3;"),
        Ok(bin(BinaryOp::Sub, bin(BinaryOp::Sub, lit(1), lit(2)), lit(3)))
    );
    assert_eq!(
        expression("8 / 4 * 2;"),
        Ok(bin(BinaryOp::Multiply, bin(BinaryOp::Divide, lit(8), lit(4)), lit(2)))
    );
    assert_eq!(
        expression("a < b >= c;"),
        Ok(bin(
            BinaryOp::GreaterThanOrEqual,
            bin(BinaryOp::LessThan, var("a"), var("b")),
            var("c")
        ))
    );
}

#[test]
fn the_six_levels_nest_in_order() {
    // a || b && c == d < e + f * g
    assert_eq!(
        expression("a || b && c == d < e + f * g;"),
        Ok(bin(
            BinaryOp::Or,
            var("a"),
            bin(
                BinaryOp::And,
                var("b"),
                bin(
                    BinaryOp::Equal,
                    var("c"),
                    bin(
                        BinaryOp::LessThan,
                        var("d"),
                        bin(BinaryOp::Add, var("e"), bin(BinaryOp::Multiply, var("f"), var("g")))
                    )
                )
            )
        ))
    );
    // the same operators the other way round
    assert_eq!(
        expression("a * b + c < d == e && f || g;"),
        Ok(bin(
            BinaryOp::Or,
            bin(
                BinaryOp::And,
                bin(
                    BinaryOp::Equal,
                    bin(
                        BinaryOp::LessThan,
                        bin(BinaryOp::Add, bin(BinaryOp::Multiply, var("a"), var("b")), var("c")),
                        var("d")
                    ),
                    var("e")
                ),
                var("f")
            ),
            var("g")
        ))
    );
}

#[test]
fn every_infix_operator_is_read() {
    let table = [
        ("+", BinaryOp::Add),
        ("-", BinaryOp::Sub),
        ("*", BinaryOp::Multiply),
        ("/", BinaryOp::Divide),
        ("&&", BinaryOp::And),
        ("||", BinaryOp::Or),
        ("==", BinaryOp::Equal),
        ("!=", BinaryOp::NotEqual),
        ("<", BinaryOp::LessThan),
        ("<=", BinaryOp::LessThanOrEqual),
        (">", BinaryOp::GreaterThan),
        (">=", BinaryOp::GreaterThanOrEqual),
    ];
    for (symbol, operator) in table {
        assert_eq!(expression(&format!("a {} b;", symbol)), Ok(bin(operator, var("a"), var("b"))));
    }
}

#[test]
fn binding_powers_are_as_tabled() {
    assert_eq!(Parser::get_binding_power(&BinaryOp::Or), (10, 11));
    assert_eq!(Parser::get_binding_power(&BinaryOp::And), (20, 21));
    assert_eq!(Parser::get_binding_power(&BinaryOp::Equal), (30, 31));
    assert_eq!(Parser::get_binding_power(&BinaryOp::NotEqual), (30, 31));
    assert_eq!(Parser::get_binding_power(&BinaryOp::LessThan), (40, 41));
    assert_eq!(Parser::get_binding_power(&BinaryOp::LessThanOrEqual), (40, 41));
    assert_eq!(Parser::get_binding_power(&BinaryOp::GreaterThan), (40, 41));
    assert_eq!(Parser::get_binding_power(&BinaryOp::GreaterThanOrEqual), (40, 41));
    assert_eq!(Parser::get_binding_power(&BinaryOp::Add), (50, 51));
    assert_eq!(Parser::get_binding_power(&BinaryOp::Sub), (50, 51));
    assert_eq!(Parser::get_binding_power(&BinaryOp::Multiply), (60, 61));
    assert_eq!(Parser::get_binding_power(&BinaryOp::Divide), (60, 61));
}

#[test]
fn prefix_operators_bind_most_strongly() {
    assert_eq!(
        expression("-a * b;"),
        Ok(bin(BinaryOp::Multiply, un(UnaryOp::Negate, var("a")), var("b")))
    );
    assert_eq!(
        expression("!a == b;"),
        Ok(bin(BinaryOp::Equal, un(UnaryOp::Not, var("a")), var("b")))
    );
    assert_eq!(expression("- - 1;"), Ok(un(UnaryOp::Negate, un(UnaryOp::Negate, lit(1)))));
    assert_eq!(expression("!-x;"), Ok(un(UnaryOp::Not, un(UnaryOp::Negate, var("x")))));
    assert_eq!(
        expression("a - -b;"),
        Ok(bin(BinaryOp::Sub, var("a"), un(UnaryOp::Negate, var("b"))))
    );
}

#[test]
fn parentheses_group() {
    assert_eq!(
        expression("(1 + 2) * 3;"),
        Ok(bin(BinaryOp::Multiply, bin(BinaryOp::Add, lit(1), lit(2)), lit(3)))
    );
    assert_eq!(expression("((x));"), Ok(var("x")));
    assert_eq!(
        expression("-(a + b);"),
        Ok(un(UnaryOp::Negate, bin(BinaryOp::Add, var("a"), var("b"))))
    );
}

#[test]
fn a_lower_level_ends_a_higher_one() {
    // with a minimum of 51, `+` ends the expression and stays unread
    let mut parser = parser_of("2 * 3 + 4;");
    assert_eq!(parser.parse_expression(51), Ok(bin(BinaryOp::Multiply, lit(2), lit(3))));
    assert_eq!(parser.peek(), Some(&Token::Operator("+".to_string())));
}

#[test]
fn assignment_inside_an_operand_takes_the_rest() {
    assert_eq!(
        expression("a + b = c * 2;"),
        Ok(bin(
            BinaryOp::Add,
            var("a"),
            assign(var("b"), bin(BinaryOp::Multiply, var("c"), lit(2)))
        ))
    );
    assert_eq!(expression("1 = 2;"), Ok(assign(lit(1), lit(2))));
}

#[test]
fn calls_take_any_number_of_arguments() {
    assert_eq!(expression("f();"), Ok(call("f", vec![])));
    assert_eq!(expression("f(1);"), Ok(call("f", vec![lit(1)])));
    assert_eq!(
        expression("f(a, 1 + 2, g(b));"),
        Ok(call("f", vec![var("a"), bin(BinaryOp::Add, lit(1), lit(2)), call("g", vec![var("b")])]))
    );
    assert_eq!(
        expression("f(x) + 1;"),
        Ok(bin(BinaryOp::Add, call("f", vec![var("x")]), lit(1)))
    );
    assert_eq!(parser_of("(a, b)").parse_call("g".to_string()), Ok(call("g", vec![var("a"), var("b")])));
}

#[test]
fn integer_literals_fit_32_bits() {
    assert_eq!(expression("0;"), Ok(lit(0)));
    assert_eq!(expression("007;"), Ok(lit(7)));
    assert_eq!(expression("2147483647;"), Ok(lit(2147483647)));
    assert_eq!(expression("0000000000002147483647;"), Ok(lit(2147483647)));
    stops(expression("2147483648;"), ParseErrorKind::InvalidInteger, 0);
    stops(expression("99999999999999999999;"), ParseErrorKind::InvalidInteger, 0);
    stops(expression("1 + 4294967296;"), ParseErrorKind::InvalidInteger, 2);
}

#[test]
fn integer_literals_are_digits_only() {
    let tokens = |text: &str| vec![Token::IntLiteral(text.to_string()), Token::Separator(';')];
    assert_eq!(Parser::new(tokens("42")).parse_expression(0), Ok(lit(42)));
    stops(Parser::new(tokens("")).parse_expression(0), ParseErrorKind::InvalidInteger, 0);
    stops(Parser::new(tokens("-5")).parse_expression(0), ParseErrorKind::InvalidInteger, 0);
    stops(Parser::new(tokens("+5")).parse_expression(0), ParseErrorKind::InvalidInteger, 0);
    stops(Parser::new(tokens("1a")).parse_expression(0), ParseErrorKind::InvalidInteger, 0);
    stops(Parser::new(tokens("\u{0663}")).parse_expression(0), ParseErrorKind::InvalidInteger, 0);
}

#[test]
fn expressions_stop_where_no_operand_starts() {
    stops(expression(";"), ParseErrorKind::ExpectedExpression, 0);
    stops(expression(""), ParseErrorKind::ExpectedExpression, 0);
    stops(expression("1 + ;"), ParseErrorKind::ExpectedExpression, 2);
    stops(expression("* 2;"), ParseErrorKind::ExpectedExpression, 0);
    stops(expression("~1;"), ParseErrorKind::ExpectedExpression, 0);
    stops(expression("int;"), ParseErrorKind::ExpectedExpression, 0);
    stops(expression("{"), ParseErrorKind::ExpectedExpression, 0);
}

#[test]
fn an_expression_ends_before_the_first_token_that_is_no_operator() {
    for (source, rest) in [
        ("a", Token::Eof),
        ("a;", Token::Separator(';')),
        ("a)", Token::Separator(')')),
        ("a, b", Token::Separator(',')),
        ("a b", Token::Identifier("b".to_string())),
        ("a 2", Token::IntLiteral("2".to_string())),
        ("a {", Token::Separator('{')),
        ("a }", Token::Separator('}')),
        ("a if", Token::Keyword("if".to_string())),
    ] {
        let mut parser = parser_of(source);
        assert_eq!(parser.parse_expression(0), Ok(var("a")));
        assert_eq!(parser.cursor(), 1);
        assert_eq!(parser.peek(), Some(&rest));
    }
    let mut parser = Parser::new(vec![Token::Identifier("a".to_string())]);
    assert_eq!(parser.parse_expression(0), Ok(var("a")));
    assert_eq!(parser.peek(), None);
}

#[test]
fn an_expression_may_be_followed_by_eof() {
    let mut parser = parser_of("1 + 2 * 3");
    assert_eq!(
        parser.parse_expression(0),
        Ok(bin(BinaryOp::Add, lit(1), bin(BinaryOp::Multiply, lit(2), lit(3))))
    );
    assert_eq!(parser.cursor(), 5);
    assert_eq!(parser.peek(), Some(&Token::Eof));
    assert_eq!(expression("a = b = 5"), Ok(assign(var("a"), assign(var("b"), lit(5)))));
}

#[test]
fn an_operator_that_is_not_infix_cannot_follow_an_operand() {
    stops(expression("a ! b;"), ParseErrorKind::InvalidOperator, 1);
    stops(expression("a ~ b;"), ParseErrorKind::InvalidOperator, 1);
    stops(expression("1 + 2 ~"), ParseErrorKind::InvalidOperator, 3);
    stops(expression("a ( b c );"), ParseErrorKind::ExpectedCommaOrParen, 3);
}

#[test]
fn parentheses_and_calls_must_be_closed() {
    stops(expression("(1 + 2;"), ParseErrorKind::ExpectedCloseParen, 4);
    stops(expression("(1, 2)"), ParseErrorKind::ExpectedCloseParen, 2);
    stops(expression("f(1;"), ParseErrorKind::ExpectedCommaOrParen, 3);
    stops(expression("f(1,);"), ParseErrorKind::ExpectedExpression, 4);
    stops(expression("f(,1);"), ParseErrorKind::ExpectedExpression, 2);
    stops(expression("f(1"), ParseErrorKind::ExpectedCommaOrParen, 3);
    stops(expression("(1"), ParseErrorKind::ExpectedCloseParen, 2);
    stops(parser_of("x").parse_call("f".to_string()), ParseErrorKind::ExpectedOpenParen, 0);
}

#[test]
fn a_variable_needs_an_initial_value() {
    stops(program("int x;"), ParseErrorKind::ExpectedInitializer, 2);
    stops(declaration("int x;"), ParseErrorKind::ExpectedInitializer, 2);
    stops(statement("{ int x; }"), ParseErrorKind::ExpectedInitializer, 3);
}

#[test]
fn declares_variables() {
    assert_eq!(declaration("int x = 1;"), Ok(int_var("x", lit(1))));
    assert_eq!(
        declaration("char c = f(1) + 2;"),
        Ok(Declaration::InitVariable {
            name: "c".to_string(),
            var_type: Type::Char,
            init: bin(BinaryOp::Add, call("f", vec![lit(1)]), lit(2)),
        })
    );
}

#[test]
fn declarations_stop_at_the_first_wrong_token() {
    stops(declaration(""), ParseErrorKind::ExpectedType, 0);
    stops(declaration("x = 1;"), ParseErrorKind::ExpectedType, 0);
    stops(declaration("1"), ParseErrorKind::ExpectedType, 0);
    stops(declaration("if x = 1;"), ParseErrorKind::InvalidType, 0);
    stops(declaration("return"), ParseErrorKind::InvalidType, 0);
    stops(declaration("int"), ParseErrorKind::ExpectedIdentifier, 1);
    stops(declaration("int 1 = 2;"), ParseErrorKind::ExpectedIdentifier, 1);
    stops(declaration("int int = 2;"), ParseErrorKind::ExpectedIdentifier, 1);
    stops(declaration("int x"), ParseErrorKind::ExpectedFunctionOrVariable, 2);
    stops(declaration("int x, y;"), ParseErrorKind::ExpectedFunctionOrVariable, 2);
    stops(declaration("int x + 1;"), ParseErrorKind::ExpectedFunctionOrVariable, 2);
    stops(declaration("int x == 1;"), ParseErrorKind::ExpectedFunctionOrVariable, 2);
    stops(declaration("int x 1;"), ParseErrorKind::ExpectedFunctionOrVariable, 2);
    stops(declaration("void x = 1;"), ParseErrorKind::VoidVariable, 2);
    stops(declaration("int x = ;"), ParseErrorKind::ExpectedExpression, 3);
    stops(declaration("int x = 1"), ParseErrorKind::ExpectedSemicolon, 4);
    stops(declaration("int x = 1 2;"), ParseErrorKind::ExpectedSemicolon, 4);
    stops(declaration("int x = 1)"), ParseErrorKind::ExpectedSemicolon, 4);
    stops(declaration("int x = 1, y = 2;"), ParseErrorKind::ExpectedSemicolon, 4);
}

#[test]
fn declares_functions() {
    assert_eq!(
        declaration("void f() {}"),
        Ok(Declaration::Function {
            name: "f".to_string(),
            ret_type: Type::Void,
            params: vec![],
            body: Box::new(block(vec![])),
        })
    );
    assert_eq!(
        declaration("int add(int a, char b) { return a + b; }"),
        Ok(Declaration::Function {
            name: "add".to_string(),
            ret_type: Type::Int,
            params: vec![
                Parameter { name: "a".to_string(), var_type: Type::Int },
                Parameter { name: "b".to_string(), var_type: Type::Char },
            ],
            body: Box::new(block(vec![stmt(Statement::Return(Some(bin(
                BinaryOp::Add,
                var("a"),
                var("b")
            ))))])),
        })
    );
    // the body is any statement
    assert_eq!(
        declaration("int one() return 1;"),
        Ok(Declaration::Function {
            name: "one".to_string(),
            ret_type: Type::Int,
            params: vec![],
            body: Box::new(Statement::Return(Some(lit(1)))),
        })
    );
    // parameter names are not compared
    assert_eq!(
        declaration("int f(int a, int a) {}"),
        Ok(Declaration::Function {
            name: "f".to_string(),
            ret_type: Type::Int,
            params: vec![
                Parameter { name: "a".to_string(), var_type: Type::Int },
                Parameter { name: "a".to_string(), var_type: Type::Int },
            ],
            body: Box::new(block(vec![])),
        })
    );
}

#[test]
fn parameters_stop_at_the_first_wrong_token() {
    stops(declaration("int f(void) {}"), ParseErrorKind::InvalidType, 3);
    stops(declaration("int f(void x) {}"), ParseErrorKind::InvalidType, 3);
    stops(declaration("int f(if x) {}"), ParseErrorKind::InvalidType, 3);
    stops(declaration("int f(x) {}"), ParseErrorKind::ExpectedType, 3);
    stops(declaration("int f("), ParseErrorKind::ExpectedType, 3);
    stops(declaration("int f(int) {}"), ParseErrorKind::ExpectedIdentifier, 4);
    stops(declaration("int f(int a int b) {}"), ParseErrorKind::ExpectedComma, 5);
    stops(declaration("int f(int a; int b) {}"), ParseErrorKind::ExpectedComma, 5);
    stops(declaration("int f(int a"), ParseErrorKind::ExpectedComma, 5);
    stops(declaration("int f(int a,) {}"), ParseErrorKind::ExpectedType, 6);
    stops(declaration("int f()"), ParseErrorKind::ExpectedStatement, 4);
    assert_eq!(
        parser_of("int a, char b)").parse_params(),
        Ok(vec![
            Parameter { name: "a".to_string(), var_type: Type::Int },
            Parameter { name: "b".to_string(), var_type: Type::Char },
        ])
    );
}

#[test]
fn simple_statements() {
    assert_eq!(statement("x = 1;"), Ok(Statement::Expr(assign(var("x"), lit(1)))));
    assert_eq!(statement("f(x);"), Ok(Statement::Expr(call("f", vec![var("x")]))));
    assert_eq!(statement("x;"), Ok(Statement::Expr(var("x"))));
    assert_eq!(statement("return;"), Ok(Statement::Return(None)));
    assert_eq!(statement("return 1 + 2;"), Ok(Statement::Return(Some(bin(BinaryOp::Add, lit(1), lit(2))))));
    assert_eq!(statement("return -x;"), Ok(Statement::Return(Some(un(UnaryOp::Negate, var("x"))))));
    assert_eq!(statement("break;"), Ok(Statement::Break));
    assert_eq!(statement("continue;"), Ok(Statement::Continue));
    assert_eq!(statement("{}"), Ok(block(vec![])));
}

#[test]
fn statements_stop_at_the_first_wrong_token() {
    stops(statement(""), ParseErrorKind::ExpectedStatement, 0);
    stops(statement(";"), ParseErrorKind::ExpectedStatement, 0);
    stops(statement("1 + 2;"), ParseErrorKind::ExpectedStatement, 0);
    stops(statement("-x;"), ParseErrorKind::ExpectedStatement, 0);
    stops(statement("(x);"), ParseErrorKind::ExpectedStatement, 0);
    stops(statement("}"), ParseErrorKind::ExpectedStatement, 0);
    stops(statement("int x = 1;"), ParseErrorKind::InvalidKeyword, 0);
    stops(statement("else x;"), ParseErrorKind::InvalidKeyword, 0);
    stops(statement("void"), ParseErrorKind::InvalidKeyword, 0);
    stops(statement("break"), ParseErrorKind::ExpectedSemicolon, 1);
    stops(statement("break 1;"), ParseErrorKind::ExpectedSemicolon, 1);
    stops(statement("continue }"), ParseErrorKind::ExpectedSemicolon, 1);
    stops(statement("return"), ParseErrorKind::ExpectedExpression, 1);
    stops(statement("return 1"), ParseErrorKind::ExpectedSemicolon, 2);
    stops(statement("return 1)"), ParseErrorKind::ExpectedSemicolon, 2);
    stops(statement("x = 1,"), ParseErrorKind::ExpectedSemicolon, 3);
    stops(statement("x y;"), ParseErrorKind::ExpectedSemicolon, 1);
    stops(statement("x"), ParseErrorKind::ExpectedSemicolon, 1);
}

#[test]
fn blocks_keep_declarations_and_statements_in_order() {
    assert_eq!(
        statement("{ int a = 1; a = a + 1; char b = a; return b; }"),
        Ok(block(vec![
            BlockItem::Decl(int_var("a", lit(1))),
            stmt(Statement::Expr(assign(var("a"), bin(BinaryOp::Add, var("a"), lit(1))))),
            BlockItem::Decl(Declaration::InitVariable {
                name: "b".to_string(),
                var_type: Type::Char,
                init: var("a"),
            }),
            stmt(Statement::Return(Some(var("b")))),
        ]))
    );
    assert_eq!(
        statement("{ { } { break; } }"),
        Ok(block(vec![stmt(block(vec![])), stmt(block(vec![stmt(Statement::Break)]))]))
    );
}

#[test]
fn blocks_stop_at_the_first_wrong_token() {
    stops(statement("{"), ParseErrorKind::ExpectedExpression, 1);
    stops(
        Parser::new(vec![Token::Separator('{')]).parse_statement(),
        ParseErrorKind::ExpectedStatement,
        1,
    );
    stops(statement("{ x = 1;"), ParseErrorKind::ExpectedExpression, 5);
    stops(statement("{ else }"), ParseErrorKind::ExpectedDeclarationOrStatement, 1);
    stops(statement("{ x = 1; else x = 2; }"), ParseErrorKind::ExpectedDeclarationOrStatement, 5);
    stops(statement("{ ; }"), ParseErrorKind::ExpectedExpression, 1);
    stops(statement("{ , }"), ParseErrorKind::ExpectedExpression, 1);
    stops(statement("{ ~x; }"), ParseErrorKind::ExpectedExpression, 1);
    stops(statement("{ 1 }"), ParseErrorKind::ExpectedSemicolon, 2);
    stops(statement("{ void v = 1; }"), ParseErrorKind::VoidVariable, 3);
}

#[test]
fn a_block_item_that_starts_with_no_keyword_is_an_expression() {
    assert_eq!(statement("{ 1; }"), Ok(block(vec![stmt(Statement::Expr(lit(1)))])));
    let mut parser = parser_of("{ 1; }");
    assert!(parser.parse_statement().is_ok());
    assert_eq!(parser.cursor(), 4);
    assert_eq!(
        statement("{ 1 + 2; (x); -y; !f(z); a = 3; g(); }"),
        Ok(block(vec![
            stmt(Statement::Expr(bin(BinaryOp::Add, lit(1), lit(2)))),
            stmt(Statement::Expr(var("x"))),
            stmt(Statement::Expr(un(UnaryOp::Negate, var("y")))),
            stmt(Statement::Expr(un(UnaryOp::Not, call("f", vec![var("z")])))),
            stmt(Statement::Expr(assign(var("a"), lit(3)))),
            stmt(Statement::Expr(call("g", vec![]))),
        ]))
    );
    // outside a block, a statement starts with `{`, a name or a keyword
    stops(statement("1;"), ParseErrorKind::ExpectedStatement, 0);
    stops(statement("if (x) 1;"), ParseErrorKind::ExpectedStatement, 4);
}

#[test]
fn a_block_in_a_block_is_a_statement() {
    assert_eq!(
        statement("{ { 1; } { } }"),
        Ok(block(vec![
            stmt(block(vec![stmt(Statement::Expr(lit(1)))])),
            stmt(block(vec![])),
        ]))
    );
}

#[test]
fn a_function_may_be_declared_in_a_block() {
    // refused only when the block is lowered
    assert_eq!(
        statement("{ int f() {} }"),
        Ok(block(vec![BlockItem::Decl(Declaration::Function {
            name: "f".to_string(),
            ret_type: Type::Int,
            params: vec![],
            body: Box::new(block(vec![])),
        })]))
    );
}

#[test]
fn if_with_and_without_else() {
    assert_eq!(
        statement("if (x) y = 1;"),
        Ok(Statement::If {
            cond: var("x"),
            then_branch: Box::new(Statement::Expr(assign(var("y"), lit(1)))),
            else_branch: None,
        })
    );
    assert_eq!(
        statement("if (x < 1) { return 1; } else { return 2; }"),
        Ok(Statement::If {
            cond: bin(BinaryOp::LessThan, var("x"), lit(1)),
            then_branch: Box::new(block(vec![stmt(Statement::Return(Some(lit(1))))])),
            else_branch: Some(Box::new(block(vec![stmt(Statement::Return(Some(lit(2))))]))),
        })
    );
}

#[test]
fn else_if_is_an_if_in_the_else_branch() {
    assert_eq!(
        statement("if (a) x = 1; else if (b) x = 2; else x = 3;"),
        Ok(Statement::If {
            cond: var("a"),
            then_branch: Box::new(Statement::Expr(assign(var("x"), lit(1)))),
            else_branch: Some(Box::new(Statement::If {
                cond: var("b"),
                then_branch: Box::new(Statement::Expr(assign(var("x"), lit(2)))),
                else_branch: Some(Box::new(Statement::Expr(assign(var("x"), lit(3))))),
            })),
        })
    );
}

#[test]
fn else_belongs_to_the_nearest_if() {
    assert_eq!(
        statement("if (a) if (b) x = 1; else x = 2;"),
        Ok(Statement::If {
            cond: var("a"),
            then_branch: Box::new(Statement::If {
                cond: var("b"),
                then_branch: Box::new(Statement::Expr(assign(var("x"), lit(1)))),
                else_branch: Some(Box::new(Statement::Expr(assign(var("x"), lit(2))))),
            }),
            else_branch: None,
        })
    );
}

#[test]
fn while_and_for() {
    assert_eq!(
        statement("while (x) { y = y + 1; }"),
        Ok(Statement::While {
            cond: var("x"),
            body: Box::new(block(vec![stmt(Statement::Expr(assign(
                var("y"),
                bin(BinaryOp::Add, var("y"), lit(1))
            )))])),
        })
    );
    assert_eq!(
        statement("for (int i = 0; i < 10; i = i + 1) f(i);"),
        Ok(Statement::For {
            init: int_var("i", lit(0)),
            cond: bin(BinaryOp::LessThan, var("i"), lit(10)),
            inc: assign(var("i"), bin(BinaryOp::Add, var("i"), lit(1))),
            body: Box::new(Statement::Expr(call("f", vec![var("i")]))),
        })
    );
}

#[test]
fn control_statements_stop_at_the_first_wrong_token() {
    stops(statement("if x) y;"), ParseErrorKind::ExpectedOpenParen, 1);
    stops(statement("if"), ParseErrorKind::ExpectedOpenParen, 1);
    stops(statement("if (x; y;"), ParseErrorKind::ExpectedCloseParen, 3);
    stops(statement("if () y;"), ParseErrorKind::ExpectedExpression, 2);
    stops(statement("if (x)"), ParseErrorKind::ExpectedStatement, 4);
    stops(statement("if (x) y; else"), ParseErrorKind::ExpectedStatement, 7);
    stops(statement("while x) y;"), ParseErrorKind::ExpectedOpenParen, 1);
    stops(statement("while (x, y) z;"), ParseErrorKind::ExpectedCloseParen, 3);
    stops(statement("while (x) int y = 1;"), ParseErrorKind::InvalidKeyword, 4);
    stops(statement("for int i = 0; i; i) x;"), ParseErrorKind::ExpectedOpenParen, 1);
    stops(statement("for (i = 0; i; i) x;"), ParseErrorKind::ExpectedType, 2);
    stops(statement("for (; i < 1; i) x;"), ParseErrorKind::ExpectedType, 2);
    stops(statement("for (int i; i; i) x;"), ParseErrorKind::ExpectedInitializer, 4);
    stops(statement("for (int i = 0; ; i) x;"), ParseErrorKind::ExpectedExpression, 7);
    stops(statement("for (int i = 0; i) x;"), ParseErrorKind::ExpectedSemicolon, 8);
    stops(statement("for (int i = 0; i; ) x;"), ParseErrorKind::ExpectedExpression, 9);
    stops(statement("for (int i = 0; i; i; x"), ParseErrorKind::ExpectedCloseParen, 10);
    stops(statement("for (int i = 0; i; i)"), ParseErrorKind::ExpectedStatement, 11);
}

#[test]
fn a_program_is_declarations_up_to_eof() {
    assert_eq!(program(""), Ok(Program { items: vec![] }));
    assert_eq!(
        program("int g = 1; int main() { return g; }"),
        Ok(Program {
            items: vec![
                int_var("g", lit(1)),
                Declaration::Function {
                    name: "main".to_string(),
                    ret_type: Type::Int,
                    params: vec![],
                    body: Box::new(block(vec![stmt(Statement::Return(Some(var("g"))))])),
                },
            ]
        })
    );
}

#[test]
fn a_program_stops_at_the_first_wrong_token() {
    stops(program("int x = 1; y"), ParseErrorKind::ExpectedType, 5);
    stops(program("x"), ParseErrorKind::ExpectedType, 0);
    stops(program("int main() { return 0; } }"), ParseErrorKind::ExpectedType, 9);
    stops(program("int main() { return 0 }"), ParseErrorKind::ExpectedSemicolon, 7);
    stops(program("int main() { break }"), ParseErrorKind::ExpectedSemicolon, 6);
}

#[test]
fn tokens_without_eof_run_out() {
    let mut parser = Parser::new(vec![
        Token::Keyword("int".to_string()),
        Token::Identifier("x".to_string()),
        Token::Operator("=".to_string()),
        Token::IntLiteral("1".to_string()),
        Token::Separator(';'),
    ]);
    stops(parser.parse_program(), ParseErrorKind::ExpectedType, 5);
    stops(Parser::new(vec![]).parse_program(), ParseErrorKind::ExpectedType, 0);
}

#[test]
fn parsing_stops_at_the_first_eof() {
    let mut parser = Parser::new(vec![
        Token::Eof,
        Token::Keyword("int".to_string()),
        Token::Eof,
    ]);
    assert_eq!(parser.parse_program(), Ok(Program { items: vec![] }));
    assert_eq!(parser.peek(), Some(&Token::Eof));
}

#[test]
fn peeking_leaves_the_cursor_where_it_is() {
    let parser = parser_of("a b");
    assert_eq!(parser.peek(), Some(&Token::Identifier("a".to_string())));
    assert_eq!(parser.peek_n(0), Some(&Token::Identifier("a".to_string())));
    assert_eq!(parser.peek_n(1), Some(&Token::Identifier("b".to_string())));
    assert_eq!(parser.peek_n(2), Some(&Token::Eof));
    assert_eq!(parser.peek_n(3), None);
    assert_eq!(parser.peek_n(usize::MAX), None);
    assert_eq!(parser.cursor(), 0);
}

#[test]
fn next_moves_the_cursor_on_by_one_also_past_the_end() {
    let mut parser = parser_of("a b");
    assert_eq!(parser.next(), Some(Token::Identifier("a".to_string())));
    assert_eq!(parser.cursor(), 1);
    assert_eq!(parser.peek(), Some(&Token::Identifier("b".to_string())));
    assert_eq!(parser.peek_n(usize::MAX), None);
    assert_eq!(parser.next(), Some(Token::Identifier("b".to_string())));
    assert_eq!(parser.next(), Some(Token::Eof));
    assert_eq!(parser.cursor(), 3);
    assert_eq!(parser.next(), None);
    assert_eq!(parser.cursor(), 4);
    assert_eq!(parser.next(), None);
    assert_eq!(parser.cursor(), 5);
    assert_eq!(parser.peek(), None);
    assert_eq!(parser.peek_n(0), None);
    let mut empty = Parser::new(vec![]);
    assert_eq!(empty.next(), None);
    assert_eq!(empty.cursor(), 1);
    stops(empty.parse_program(), ParseErrorKind::ExpectedType, 1);
}

#[test]
fn after_a_failure_the_cursor_is_on_the_token_that_failed() {
    let mut parser = parser_of("int x = 1 + ; int y = 2;");
    stops(parser.parse_program(), ParseErrorKind::ExpectedExpression, 5);
    assert_eq!(parser.peek(), Some(&Token::Separator(';')));
}

#[test]
fn after_a_parse_the_cursor_is_behind_it() {
    let mut parser = parser_of("x = 1; y = 2;");
    assert_eq!(parser.parse_statement(), Ok(Statement::Expr(assign(var("x"), lit(1)))));
    assert_eq!(parser.peek(), Some(&Token::Identifier("y".to_string())));
    assert_eq!(parser.parse_statement(), Ok(Statement::Expr(assign(var("y"), lit(2)))));
    assert_eq!(parser.peek(), Some(&Token::Eof));
}

#[test]
fn the_rest_of_a_declaration_can_be_parsed_alone() {
    assert_eq!(
        parser_of("1 + 2;").parse_variable("x".to_string(), Type::Int),
        Ok(int_var("x", bin(BinaryOp::Add, lit(1), lit(2))))
    );
    assert_eq!(
        parser_of("int a) { }").parse_function("f".to_string(), Type::Void),
        Ok(Declaration::Function {
            name: "f".to_string(),
            ret_type: Type::Void,
            params: vec![Parameter { name: "a".to_string(), var_type: Type::Int }],
            body: Box::new(block(vec![])),
        })
    );
}
