use compiler::ast::{
    BinaryOp, BlockItem, Declaration, Expression, Parameter, Statement, Type, UnaryOp,
};
use compiler::grammar::ParseErrorKind;
use compiler::ir::{
    copy_functions, copy_globals, copy_instructions, copy_parameters, copy_values, Fun, Glob,
    Instruction, Value,
};
use compiler::lexer::{char_in_class, is_reserved, lexer, run_end, scan_token, CharClass};
use compiler::lower::{digit_of, label_text};
use compiler::number::integer_value;
use compiler::parser::{
    binary_operator_of, starts_statement_keyword, type_of_keyword, unary_operator_of, ParseError,
    Parser,
};
use compiler::text::{chars_of, reads, string_of};
use compiler::token::Token;

fn cursor(source: &str) -> Parser {
    Parser::new(lexer(source.to_string()))
}

fn name(text: &str) -> Expression {
    Expression::Variable(text.to_string())
}

#[test]
fn text_is_read_character_by_character() {
    assert_eq!(chars_of(""), Vec::<char>::new());
    assert_eq!(chars_of("aé\u{1F600}b"), vec!['a', 'é', '\u{1F600}', 'b']);
    let chars = chars_of("héllo");
    assert_eq!(string_of(&chars, 0, 5), "héllo");
    assert_eq!(string_of(&chars, 1, 3), "él");
    assert_eq!(string_of(&chars, 2, 2), "");
    assert!(reads(&"int".to_string(), "int"));
    assert!(!reads(&"int".to_string(), "in"));
    assert!(!reads(&"in".to_string(), "int"));
    assert!(!reads(&"Int".to_string(), "int"));
    assert!(reads(&String::new(), ""));
}

#[test]
fn characters_are_classed() {
    for c in ['a', 'z', 'A', 'Z', '_', '0', '9'] {
        assert!(char_in_class(CharClass::Word, c));
    }
    for c in ['-', ' ', 'é', '\n', '@', '[', '`', '{', '/', ':'] {
        assert!(!char_in_class(CharClass::Word, c));
    }
    for c in ['0', '5', '9'] {
        assert!(char_in_class(CharClass::Digit, c));
    }
    for c in ['a', '/', ':', '\u{0663}', ' '] {
        assert!(!char_in_class(CharClass::Digit, c));
    }
    assert!(char_in_class(CharClass::Comment, 'x'));
    assert!(char_in_class(CharClass::Comment, '\r'));
    assert!(!char_in_class(CharClass::Comment, '\n'));
}

#[test]
fn runs_end_where_the_class_ends() {
    let chars = chars_of("abc12 de//x\ny");
    assert_eq!(run_end(&chars, 0, CharClass::Word), 5);
    assert_eq!(run_end(&chars, 3, CharClass::Digit), 5);
    assert_eq!(run_end(&chars, 0, CharClass::Digit), 0);
    assert_eq!(run_end(&chars, 5, CharClass::Word), 5);
    assert_eq!(run_end(&chars, 8, CharClass::Comment), 11);
    assert_eq!(run_end(&chars, 12, CharClass::Comment), 13);
    assert_eq!(run_end(&chars, 13, CharClass::Word), 13);
}

#[test]
fn one_token_is_scanned_at_a_time() {
    let chars = chars_of("if x1 <= 20 // c\n&&&");
    assert_eq!(scan_token(&chars, 0), (Some(Token::Keyword("if".to_string())), 2));
    assert_eq!(scan_token(&chars, 1), (Some(Token::Identifier("f".to_string())), 2));
    assert_eq!(scan_token(&chars, 2), (None, 3));
    assert_eq!(scan_token(&chars, 3), (Some(Token::Identifier("x1".to_string())), 5));
    assert_eq!(scan_token(&chars, 6), (Some(Token::Operator("<=".to_string())), 8));
    assert_eq!(scan_token(&chars, 7), (Some(Token::Operator("=".to_string())), 8));
    assert_eq!(scan_token(&chars, 9), (Some(Token::IntLiteral("20".to_string())), 11));
    assert_eq!(scan_token(&chars, 12), (None, 16));
    assert_eq!(scan_token(&chars, 13), (Some(Token::Operator("/".to_string())), 14));
    assert_eq!(scan_token(&chars, 17), (Some(Token::Operator("&&".to_string())), 19));
    assert_eq!(scan_token(&chars, 19), (None, 20));
}

#[test]
fn reserved_words_are_told_apart() {
    for word in ["if", "else", "for", "while", "break", "continue", "return", "int", "char", "void"] {
        assert!(is_reserved(&word.to_string()));
    }
    for word in ["", "i", "If", "elif", "integer", "voi", "returns", "do", "switch"] {
        assert!(!is_reserved(&word.to_string()));
    }
    assert_eq!(type_of_keyword(&"int".to_string()), Some(Type::Int));
    assert_eq!(type_of_keyword(&"char".to_string()), Some(Type::Char));
    assert_eq!(type_of_keyword(&"void".to_string()), Some(Type::Void));
    assert_eq!(type_of_keyword(&"if".to_string()), None);
    for word in ["if", "while", "for", "return", "break", "continue"] {
        assert!(starts_statement_keyword(&word.to_string()));
    }
    for word in ["else", "int", "char", "void", "x"] {
        assert!(!starts_statement_keyword(&word.to_string()));
    }
}

#[test]
fn operator_symbols_are_told_apart() {
    assert_eq!(binary_operator_of(&"+".to_string()), Some(BinaryOp::Add));
    assert_eq!(binary_operator_of(&">=".to_string()), Some(BinaryOp::GreaterThanOrEqual));
    assert_eq!(binary_operator_of(&"=".to_string()), None);
    assert_eq!(binary_operator_of(&"!".to_string()), None);
    assert_eq!(binary_operator_of(&"~".to_string()), None);
    assert_eq!(binary_operator_of(&"".to_string()), None);
    assert_eq!(unary_operator_of(&"-".to_string()), Some(UnaryOp::Negate));
    assert_eq!(unary_operator_of(&"!".to_string()), Some(UnaryOp::Not));
    assert_eq!(unary_operator_of(&"~".to_string()), None);
    assert_eq!(unary_operator_of(&"+".to_string()), None);
}

#[test]
fn integers_are_read_from_their_digits() {
    assert_eq!(integer_value(&"0".to_string()), Some(0));
    assert_eq!(integer_value(&"10".to_string()), Some(10));
    assert_eq!(integer_value(&"1234567890".to_string()), Some(1234567890));
    assert_eq!(integer_value(&"2147483647".to_string()), Some(i32::MAX));
    assert_eq!(integer_value(&"2147483648".to_string()), None);
    assert_eq!(integer_value(&"2147483650".to_string()), None);
    assert_eq!(integer_value(&"3000000000".to_string()), None);
    assert_eq!(integer_value(&"21474836470".to_string()), None);
    assert_eq!(integer_value(&"000".to_string()), Some(0));
    assert_eq!(integer_value(&"".to_string()), None);
    assert_eq!(integer_value(&"12x".to_string()), None);
    assert_eq!(integer_value(&"x12".to_string()), None);
    assert_eq!(integer_value(&" 12".to_string()), None);
    assert_eq!(integer_value(&"9999999999x".to_string()), None);
}

#[test]
fn the_parts_of_statements_can_be_parsed_alone() {
    assert_eq!(cursor("a + 1; b").parse_terminated(), Ok(Expression::Binary {
        operator: BinaryOp::Add,
        left_oper: Box::new(name("a")),
        right_oper: Box::new(Expression::IntLiteral(1)),
    }));
    assert_eq!(
        cursor("a)").parse_terminated(),
        Err(ParseError { kind: ParseErrorKind::ExpectedSemicolon, at: 1 })
    );
    assert_eq!(cursor("(a) b").parse_condition(), Ok(name("a")));
    assert_eq!(
        cursor("a)").parse_condition(),
        Err(ParseError { kind: ParseErrorKind::ExpectedOpenParen, at: 0 })
    );
    assert_eq!(
        cursor("(a;").parse_condition(),
        Err(ParseError { kind: ParseErrorKind::ExpectedCloseParen, at: 2 })
    );
    assert_eq!(cursor("a + 1").parse_operand(), Ok(name("a")));
    assert_eq!(
        cursor("f(a) + 1").parse_operand(),
        Ok(Expression::Call { name: "f".to_string(), args: vec![name("a")] })
    );
    assert_eq!(cursor("(a + 1) * 2").parse_operand(), Ok(Expression::Binary {
        operator: BinaryOp::Add,
        left_oper: Box::new(name("a")),
        right_oper: Box::new(Expression::IntLiteral(1)),
    }));
    assert_eq!(cursor("; x").parse_return(), Ok(Statement::Return(None)));
    assert_eq!(cursor("x;").parse_return(), Ok(Statement::Return(Some(name("x")))));
    assert_eq!(
        cursor("(x) break;").parse_while(),
        Ok(Statement::While { cond: name("x"), body: Box::new(Statement::Break) })
    );
    assert_eq!(
        cursor("(x) break; else continue;").parse_if(),
        Ok(Statement::If {
            cond: name("x"),
            then_branch: Box::new(Statement::Break),
            else_branch: Some(Box::new(Statement::Continue)),
        })
    );
    assert_eq!(
        cursor("(int i = 0; i; i) break;").parse_for(),
        Ok(Statement::For {
            init: Declaration::InitVariable {
                name: "i".to_string(),
                var_type: Type::Int,
                init: Expression::IntLiteral(0),
            },
            cond: name("i"),
            inc: name("i"),
            body: Box::new(Statement::Break),
        })
    );
    assert_eq!(
        cursor("int a = b; }").parse_block_item(),
        Ok(BlockItem::Decl(Declaration::InitVariable {
            name: "a".to_string(),
            var_type: Type::Int,
            init: name("b"),
        }))
    );
    assert_eq!(cursor("break; }").parse_block_item(), Ok(BlockItem::Stmt(Statement::Break)));
    assert_eq!(
        cursor("1; }").parse_block_item(),
        Ok(BlockItem::Stmt(Statement::Expr(Expression::IntLiteral(1))))
    );
    assert_eq!(
        cursor("{ } }").parse_block_item(),
        Ok(BlockItem::Stmt(Statement::Block { items: vec![] }))
    );
    assert_eq!(
        cursor("break; continue; } x").parse_block_items(),
        Ok(vec![BlockItem::Stmt(Statement::Break), BlockItem::Stmt(Statement::Continue)])
    );
    assert_eq!(cursor("}").parse_block_items(), Ok(vec![]));
}

#[test]
fn labels_are_named_after_their_numbers() {
    assert_eq!(label_text(0), "L0");
    assert_eq!(label_text(7), "L7");
    assert_eq!(label_text(9), "L9");
    assert_eq!(label_text(10), "L10");
    assert_eq!(label_text(19), "L19");
    assert_eq!(label_text(100), "L100");
    assert_eq!(label_text(1_000_000), "L1000000");
    assert_eq!(label_text(4_294_967_295), "L4294967295");
    assert_eq!(label_text(usize::MAX), format!("L{}", usize::MAX));
    let digits: Vec<char> = (0..10).map(digit_of).collect();
    assert_eq!(digits, vec!['0', '1', '2', '3', '4', '5', '6', '7', '8', '9']);
}

#[test]
fn vectors_are_copied_item_by_item() {
    let values = vec![Value::Temp(1), Value::Var("x".to_string()), Value::Const(-3)];
    assert_eq!(copy_values(&values), values);
    let code = vec![
        Instruction::Call { dest: Value::Temp(0), name: "f".to_string(), args: copy_values(&values) },
        Instruction::Label("L0".to_string()),
        Instruction::IfGoto { cond: Value::Temp(0), label: "L0".to_string() },
        Instruction::Return(None),
    ];
    assert_eq!(copy_instructions(&code), code);
    let params = vec![
        Parameter { name: "a".to_string(), var_type: Type::Int },
        Parameter { name: "b".to_string(), var_type: Type::Char },
    ];
    assert_eq!(copy_parameters(&params), params);
    assert_eq!(params[0].clone(), params[0]);
    let globals = vec![Glob { name: "g".to_string(), var_type: Type::Int, init: Value::Const(1) }];
    assert_eq!(copy_globals(&globals), globals);
    let functions = vec![Fun {
        name: "f".to_string(),
        ret_type: Type::Void,
        params: copy_parameters(&params),
        body: copy_instructions(&code),
    }];
    assert_eq!(copy_functions(&functions), functions);
    assert_eq!(copy_values(&vec![]), vec![]);
}

#[test]
fn tokens_are_copied() {
    for token in lexer("int x = 1 + f(2);".to_string()) {
        assert_eq!(token.clone(), token);
    }
}
