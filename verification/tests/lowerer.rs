use compiler::ast::{
    BinaryOp, BlockItem, Declaration, Expression, Parameter, Program, Statement, Type, UnaryOp,
};
use compiler::ir::{Fun, Glob, Instruction, Module, Value};
use compiler::lexer::lexer;
use compiler::lower::Lowerer;
use compiler::lowering::LowerError;
use compiler::parser::Parser;

fn parsed(source: &str) -> Program {
    Parser::new(lexer(source.to_string())).parse_program().unwrap()
}

fn parsed_statement(source: &str) -> Statement {
    Parser::new(lexer(source.to_string())).parse_statement().unwrap()
}

fn parsed_expression(source: &str) -> Expression {
    Parser::new(lexer(source.to_string())).parse_expression(0).unwrap()
}

fn fresh() -> Lowerer {
    Lowerer::new(Program { items: vec![] })
}

fn lowered(source: &str) -> Result<Module, LowerError> {
    fresh().lower_program(&parsed(source))
}

/// The instructions of the body of `void f() <statement>`.
fn body_of(statement: &str) -> Vec<Instruction> {
    let module = lowered(&format!("void f() {}", statement)).unwrap();
    assert_eq!(module.functions.len(), 1);
    module.functions.into_iter().next().unwrap().body
}

fn fails(statement: &str) -> LowerError {
    lowered(&format!("void f() {}", statement)).unwrap_err()
}

fn t(n: usize) -> Value {
    Value::Temp(n)
}

fn v(name: &str) -> Value {
    Value::Var(name.to_string())
}

fn c(n: i32) -> Value {
    Value::Const(n)
}

fn label(name: &str) -> Instruction {
    Instruction::Label(name.to_string())
}

fn goto(name: &str) -> Instruction {
    Instruction::Goto(name.to_string())
}

fn if_goto(cond: Value, name: &str) -> Instruction {
    Instruction::IfGoto { cond, label: name.to_string() }
}

fn binary(dest: Value, operator: BinaryOp, left_oper: Value, right_oper: Value) -> Instruction {
    Instruction::Binary { dest, operator, left_oper, right_oper }
}

fn temps_read(instr: &Instruction) -> Vec<usize> {
    let values: Vec<&Value> = match instr {
        Instruction::Assign(_, src) => vec![src],
        Instruction::Unary { oper, .. } => vec![oper],
        Instruction::Binary { left_oper, right_oper, .. } => vec![left_oper, right_oper],
        Instruction::Call { args, .. } => args.iter().collect(),
        Instruction::IfGoto { cond, .. } => vec![cond],
        Instruction::Return(Some(value)) => vec![value],
        _ => vec![],
    };
    values
        .into_iter()
        .filter_map(|value| match value {
            Value::Temp(n) => Some(*n),
            _ => None,
        })
        .collect()
}

fn temp_written(instr: &Instruction) -> Option<usize> {
    match instr {
        Instruction::Assign(Value::Temp(n), _)
        | Instruction::Unary { dest: Value::Temp(n), .. }
        | Instruction::Binary { dest: Value::Temp(n), .. }
        | Instruction::Call { dest: Value::Temp(n), .. } => Some(*n),
        _ => None,
    }
}

#[test]
fn a_while_loop_is_laid_out_around_three_labels() {
    assert_eq!(
        body_of("while (x) { y = y + 1; }"),
        vec![
            goto("L0"),
            label("L0"),
            if_goto(v("x"), "L1"),
            goto("L2"),
            label("L1"),
            binary(t(0), BinaryOp::Add, v("y"), c(1)),
            Instruction::Assign(v("y"), t(0)),
            goto("L0"),
            label("L2"),
        ]
    );
}

#[test]
fn a_while_loop_takes_exactly_three_labels() {
    let body = body_of("while (x) { y = y + 1; }");
    let mut names: Vec<String> = body
        .iter()
        .filter_map(|instr| match instr {
            Instruction::Label(name) | Instruction::Goto(name) => Some(name.clone()),
            Instruction::IfGoto { label, .. } => Some(label.clone()),
            _ => None,
        })
        .collect();
    names.sort();
    names.dedup();
    assert_eq!(names, vec!["L0".to_string(), "L1".to_string(), "L2".to_string()]);
    let mut lowerer = fresh();
    lowerer.lower_statement(&parsed_statement("while (x) { y = y + 1; }")).unwrap();
    assert_eq!(lowerer.next_label(), Ok("L3".to_string()));
}

#[test]
fn break_and_continue_target_the_innermost_loop() {
    assert_eq!(
        body_of("while (a) { while (b) { break; continue; } break; continue; }"),
        vec![
            goto("L0"),
            label("L0"),
            if_goto(v("a"), "L1"),
            goto("L2"),
            label("L1"),
            // the inner loop: condition L3, body L4, end L5
            goto("L3"),
            label("L3"),
            if_goto(v("b"), "L4"),
            goto("L5"),
            label("L4"),
            goto("L5"),
            goto("L3"),
            goto("L3"),
            label("L5"),
            // back in the outer loop
            goto("L2"),
            goto("L0"),
            goto("L0"),
            label("L2"),
        ]
    );
}

#[test]
fn continue_in_a_for_loop_jumps_to_the_increment() {
    assert_eq!(
        body_of("for (int i = 0; i < 3; i = i + 1) { continue; break; }"),
        vec![
            Instruction::Assign(v("i"), c(0)),
            goto("L0"),
            label("L0"),
            binary(t(0), BinaryOp::LessThan, v("i"), c(3)),
            if_goto(t(0), "L1"),
            goto("L3"),
            label("L1"),
            goto("L2"),
            goto("L3"),
            label("L2"),
            binary(t(1), BinaryOp::Add, v("i"), c(1)),
            Instruction::Assign(v("i"), t(1)),
            goto("L0"),
            label("L3"),
        ]
    );
}

#[test]
fn a_loop_inside_a_for_loop_has_its_own_targets() {
    assert_eq!(
        body_of("for (int i = 0; i; i) { while (j) { continue; } continue; }"),
        vec![
            Instruction::Assign(v("i"), c(0)),
            goto("L0"),
            label("L0"),
            if_goto(v("i"), "L1"),
            goto("L3"),
            label("L1"),
            goto("L4"),
            label("L4"),
            if_goto(v("j"), "L5"),
            goto("L6"),
            label("L5"),
            goto("L4"),
            goto("L4"),
            label("L6"),
            goto("L2"),
            label("L2"),
            goto("L0"),
            label("L3"),
        ]
    );
}

#[test]
fn break_outside_a_loop_cannot_be_lowered() {
    assert_eq!(fails("{ break; }"), LowerError::BreakOutsideLoop);
    assert_eq!(fails("break;"), LowerError::BreakOutsideLoop);
    assert_eq!(fails("if (x) break;"), LowerError::BreakOutsideLoop);
    assert_eq!(fails("{ while (x) { } break; }"), LowerError::BreakOutsideLoop);
    assert_eq!(fresh().lower_statement(&Statement::Break), Err(LowerError::BreakOutsideLoop));
}

#[test]
fn continue_outside_a_loop_cannot_be_lowered() {
    assert_eq!(fails("{ continue; }"), LowerError::ContinueOutsideLoop);
    assert_eq!(fails("{ for (int i = 0; i; i) { } continue; }"), LowerError::ContinueOutsideLoop);
    assert_eq!(fresh().lower_statement(&Statement::Continue), Err(LowerError::ContinueOutsideLoop));
}

#[test]
fn loops_of_one_function_do_not_enclose_the_next() {
    let program = Program {
        items: vec![Declaration::Function {
            name: "g".to_string(),
            ret_type: Type::Void,
            params: vec![],
            body: Box::new(Statement::Break),
        }],
    };
    let mut lowerer = fresh();
    let failing = Statement::While {
        cond: Expression::Variable("x".to_string()),
        body: Box::new(Statement::Expr(Expression::CharLiteral('c'))),
    };
    assert_eq!(lowerer.lower_statement(&failing), Err(LowerError::CharLiteral));
    // the loop that failed is left again
    assert_eq!(lowerer.lower_statement(&Statement::Break), Err(LowerError::BreakOutsideLoop));
    assert_eq!(lowerer.lower_program(&program), Err(LowerError::BreakOutsideLoop));
}

#[test]
fn only_a_variable_can_be_assigned_to() {
    assert_eq!(fails("{ x = 1 = 2; }"), LowerError::AssignToNonVariable);
    assert_eq!(fails("{ f(x) = 2; }"), LowerError::AssignToNonVariable);
    assert_eq!(fails("{ x = (a + b) = 2; }"), LowerError::AssignToNonVariable);
    assert_eq!(
        body_of("{ x = (y) = 2; }"),
        vec![Instruction::Assign(v("y"), c(2)), Instruction::Assign(v("x"), v("y"))]
    );
    assert_eq!(
        fresh().lower_expression(&Expression::Assign {
            target: Box::new(Expression::IntLiteral(1)),
            value: Box::new(Expression::IntLiteral(2)),
        }),
        Err(LowerError::AssignToNonVariable)
    );
}

#[test]
fn the_value_is_lowered_before_the_target_is_looked_at() {
    assert_eq!(
        fresh().lower_expression(&Expression::Assign {
            target: Box::new(Expression::IntLiteral(1)),
            value: Box::new(Expression::CharLiteral('c')),
        }),
        Err(LowerError::CharLiteral)
    );
}

#[test]
fn a_function_inside_a_function_cannot_be_lowered() {
    assert_eq!(fails("{ int g() { } }"), LowerError::NestedFunction);
    assert_eq!(fails("for (int g() { } x; x) { }"), LowerError::NestedFunction);
    let inner = Declaration::Function {
        name: "g".to_string(),
        ret_type: Type::Int,
        params: vec![],
        body: Box::new(Statement::Break),
    };
    assert_eq!(fresh().lower_inner_declaration(&inner), Err(LowerError::NestedFunction));
}

#[test]
fn a_character_literal_cannot_be_lowered() {
    assert_eq!(
        fresh().lower_expression(&Expression::CharLiteral('a')),
        Err(LowerError::CharLiteral)
    );
    let program = Program {
        items: vec![Declaration::InitVariable {
            name: "c".to_string(),
            var_type: Type::Char,
            init: Expression::Binary {
                operator: BinaryOp::Add,
                left_oper: Box::new(Expression::IntLiteral(1)),
                right_oper: Box::new(Expression::CharLiteral('a')),
            },
        }],
    };
    assert_eq!(fresh().lower_program(&program), Err(LowerError::CharLiteral));
}

#[test]
fn a_failure_returns_no_module() {
    assert_eq!(
        lowered("int g = 1; void f() { x = 1; break; } void h() { }"),
        Err(LowerError::BreakOutsideLoop)
    );
}

#[test]
fn literals_and_variables_need_no_instruction() {
    let mut lowerer = fresh();
    assert_eq!(lowerer.lower_expression(&parsed_expression("42;")), Ok(c(42)));
    assert_eq!(lowerer.lower_expression(&parsed_expression("x;")), Ok(v("x")));
    assert_eq!(lowerer.next_temp(), Ok(t(0)));
    assert_eq!(body_of("{ x; y; }"), vec![]);
}

#[test]
fn operands_are_lowered_before_the_result_is_numbered() {
    assert_eq!(
        body_of("{ x = 1 + 2 * 3; }"),
        vec![
            binary(t(0), BinaryOp::Multiply, c(2), c(3)),
            binary(t(1), BinaryOp::Add, c(1), t(0)),
            Instruction::Assign(v("x"), t(1)),
        ]
    );
    assert_eq!(
        body_of("{ x = (a - b) / (c - d); }"),
        vec![
            binary(t(0), BinaryOp::Sub, v("a"), v("b")),
            binary(t(1), BinaryOp::Sub, v("c"), v("d")),
            binary(t(2), BinaryOp::Divide, t(0), t(1)),
            Instruction::Assign(v("x"), t(2)),
        ]
    );
}

#[test]
fn prefix_operators_take_a_temporary() {
    assert_eq!(
        body_of("{ x = -y; z = !-x; }"),
        vec![
            Instruction::Unary { dest: t(0), operator: UnaryOp::Negate, oper: v("y") },
            Instruction::Assign(v("x"), t(0)),
            Instruction::Unary { dest: t(1), operator: UnaryOp::Negate, oper: v("x") },
            Instruction::Unary { dest: t(2), operator: UnaryOp::Not, oper: t(1) },
            Instruction::Assign(v("z"), t(2)),
        ]
    );
}

#[test]
fn arguments_are_lowered_from_left_to_right() {
    assert_eq!(
        body_of("{ f(a + 1, 2, g(b), c); }"),
        vec![
            binary(t(0), BinaryOp::Add, v("a"), c(1)),
            Instruction::Call { dest: t(1), name: "g".to_string(), args: vec![v("b")] },
            Instruction::Call {
                dest: t(2),
                name: "f".to_string(),
                args: vec![t(0), c(2), t(1), v("c")],
            },
        ]
    );
    assert_eq!(
        body_of("{ f(); }"),
        vec![Instruction::Call { dest: t(0), name: "f".to_string(), args: vec![] }]
    );
}

#[test]
fn an_assignment_has_its_variable_as_value() {
    assert_eq!(
        body_of("{ a = b = c; }"),
        vec![Instruction::Assign(v("b"), v("c")), Instruction::Assign(v("a"), v("b"))]
    );
    let mut lowerer = fresh();
    assert_eq!(lowerer.lower_expression(&parsed_expression("a = 5;")), Ok(v("a")));
    assert_eq!(
        body_of("{ return a = 1; }"),
        vec![Instruction::Assign(v("a"), c(1)), Instruction::Return(Some(v("a")))]
    );
}

#[test]
fn return_with_and_without_a_value() {
    assert_eq!(body_of("return;"), vec![Instruction::Return(None)]);
    assert_eq!(body_of("return 7;"), vec![Instruction::Return(Some(c(7)))]);
    assert_eq!(
        body_of("return a * 2;"),
        vec![binary(t(0), BinaryOp::Multiply, v("a"), c(2)), Instruction::Return(Some(t(0)))]
    );
}

#[test]
fn a_local_declaration_is_an_assignment() {
    assert_eq!(
        body_of("{ int a = 1; char b = a + 1; }"),
        vec![
            Instruction::Assign(v("a"), c(1)),
            binary(t(0), BinaryOp::Add, v("a"), c(1)),
            Instruction::Assign(v("b"), t(0)),
        ]
    );
}

#[test]
fn an_if_is_laid_out_around_three_labels() {
    assert_eq!(
        body_of("if (x) a = 1; else a = 2;"),
        vec![
            if_goto(v("x"), "L0"),
            goto("L1"),
            label("L0"),
            Instruction::Assign(v("a"), c(1)),
            goto("L2"),
            label("L1"),
            Instruction::Assign(v("a"), c(2)),
            label("L2"),
        ]
    );
    assert_eq!(
        body_of("if (x == 0) a = 1;"),
        vec![
            binary(t(0), BinaryOp::Equal, v("x"), c(0)),
            if_goto(t(0), "L0"),
            goto("L1"),
            label("L0"),
            Instruction::Assign(v("a"), c(1)),
            goto("L2"),
            label("L1"),
            label("L2"),
        ]
    );
}

#[test]
fn nested_ifs_take_their_labels_from_outside_in() {
    assert_eq!(
        body_of("if (a) { if (b) x = 1; } else if (c) x = 2;"),
        vec![
            if_goto(v("a"), "L0"),
            goto("L1"),
            label("L0"),
            if_goto(v("b"), "L3"),
            goto("L4"),
            label("L3"),
            Instruction::Assign(v("x"), c(1)),
            goto("L5"),
            label("L4"),
            label("L5"),
            goto("L2"),
            label("L1"),
            if_goto(v("c"), "L6"),
            goto("L7"),
            label("L6"),
            Instruction::Assign(v("x"), c(2)),
            goto("L8"),
            label("L7"),
            label("L8"),
            label("L2"),
        ]
    );
}

#[test]
fn temporaries_start_anew_in_each_function_and_labels_do_not() {
    let module = lowered(
        "int f(int a) { while (a) a = a - 1; return a + 1; } int g() { if (1) return 2 * 3; return 0; }",
    )
    .unwrap();
    assert_eq!(
        module,
        Module {
            globals: vec![],
            functions: vec![
                Fun {
                    name: "f".to_string(),
                    ret_type: Type::Int,
                    params: vec![Parameter { name: "a".to_string(), var_type: Type::Int }],
                    body: vec![
                        goto("L0"),
                        label("L0"),
                        if_goto(v("a"), "L1"),
                        goto("L2"),
                        label("L1"),
                        binary(t(0), BinaryOp::Sub, v("a"), c(1)),
                        Instruction::Assign(v("a"), t(0)),
                        goto("L0"),
                        label("L2"),
                        binary(t(1), BinaryOp::Add, v("a"), c(1)),
                        Instruction::Return(Some(t(1))),
                    ],
                },
                Fun {
                    name: "g".to_string(),
                    ret_type: Type::Int,
                    params: vec![],
                    body: vec![
                        if_goto(c(1), "L3"),
                        goto("L4"),
                        label("L3"),
                        binary(t(0), BinaryOp::Multiply, c(2), c(3)),
                        Instruction::Return(Some(t(0))),
                        goto("L5"),
                        label("L4"),
                        label("L5"),
                        Instruction::Return(Some(c(0))),
                    ],
                },
            ],
        }
    );
}

#[test]
fn globals_record_where_their_value_lives() {
    assert_eq!(
        lowered("int a = 1; char b = a; int c = a + 2;"),
        Ok(Module {
            globals: vec![
                Glob { name: "a".to_string(), var_type: Type::Int, init: c(1) },
                Glob { name: "b".to_string(), var_type: Type::Char, init: v("a") },
                Glob { name: "c".to_string(), var_type: Type::Int, init: t(0) },
            ],
            functions: vec![],
        })
    );
}

#[test]
fn globals_count_on_from_the_function_before_them() {
    let module = lowered("int f() { return 1 + 2; } int a = 3 * 4; int b = 5 - 6;").unwrap();
    assert_eq!(
        module.globals,
        vec![
            Glob { name: "a".to_string(), var_type: Type::Int, init: t(1) },
            Glob { name: "b".to_string(), var_type: Type::Int, init: t(2) },
        ]
    );
    assert_eq!(
        module.functions[0].body,
        vec![binary(t(0), BinaryOp::Add, c(1), c(2)), Instruction::Return(Some(t(0)))]
    );
}

#[test]
fn labels_are_numbered_in_decimal() {
    let mut lowerer = fresh();
    let mut names = Vec::new();
    for _ in 0..12 {
        names.push(lowerer.next_label().unwrap());
    }
    assert_eq!(
        names,
        vec!["L0", "L1", "L2", "L3", "L4", "L5", "L6", "L7", "L8", "L9", "L10", "L11"]
    );
    for _ in 12..99 {
        lowerer.next_label().unwrap();
    }
    assert_eq!(lowerer.next_label(), Ok("L99".to_string()));
    assert_eq!(lowerer.next_label(), Ok("L100".to_string()));
    assert_eq!(lowerer.next_label(), Ok("L101".to_string()));
    for _ in 102..1230 {
        lowerer.next_label().unwrap();
    }
    assert_eq!(lowerer.next_label(), Ok("L1230".to_string()));
}

#[test]
fn temporaries_are_numbered_from_zero() {
    let mut lowerer = fresh();
    assert_eq!(lowerer.next_temp(), Ok(t(0)));
    assert_eq!(lowerer.next_temp(), Ok(t(1)));
    lowerer.clear_state();
    assert_eq!(lowerer.next_temp(), Ok(t(0)));
}

#[test]
fn clearing_keeps_the_module_and_the_labels() {
    let mut lowerer = fresh();
    lowerer.lower_program(&parsed("int g = 1; void f() { while (x) { } }")).unwrap();
    lowerer.emit(Instruction::Return(None));
    lowerer.clear_state();
    assert_eq!(lowerer.next_label(), Ok("L3".to_string()));
    let module = lowerer.lower_program(&parsed("void h() { return; }")).unwrap();
    assert_eq!(module.globals.len(), 1);
    assert_eq!(module.functions.len(), 2);
    assert_eq!(module.functions[1].body, vec![Instruction::Return(None)]);
}

#[test]
fn emitted_instructions_go_into_the_function_being_lowered() {
    let mut lowerer = fresh();
    lowerer.emit(label("start"));
    lowerer.lower_statement(&parsed_statement("return 1;")).unwrap();
    lowerer.emit(goto("start"));
    // a function clears what was emitted before it
    let module = lowerer.lower_program(&parsed("void f() { return; }")).unwrap();
    assert_eq!(module.functions[0].body, vec![Instruction::Return(None)]);
}

#[test]
fn lowering_an_inner_declaration_alone() {
    let mut lowerer = fresh();
    let decl = Declaration::InitVariable {
        name: "x".to_string(),
        var_type: Type::Int,
        init: parsed_expression("a * a;"),
    };
    assert_eq!(lowerer.lower_inner_declaration(&decl), Ok(()));
    assert_eq!(lowerer.next_temp(), Ok(t(1)));
}

#[test]
fn lowering_a_declaration_alone() {
    let mut lowerer = fresh();
    let program = parsed("int sq(int a) { return a * a; } int two = 1 + 1;");
    assert_eq!(lowerer.lower_declaration(&program.items[0]), Ok(()));
    assert_eq!(lowerer.lower_declaration(&program.items[1]), Ok(()));
    let module = lowerer.lower_program(&Program { items: vec![] }).unwrap();
    assert_eq!(module.functions.len(), 1);
    assert_eq!(module.functions[0].name, "sq");
    assert_eq!(
        module.globals,
        vec![Glob { name: "two".to_string(), var_type: Type::Int, init: t(1) }]
    );
}

#[test]
fn every_temporary_is_written_before_it_is_read() {
    let module = lowered(
        "int f(int n) {
            int s = 0;
            for (int i = 0; i < n * 2; i = i + 1) {
                if (i / 2 == g(i, s + 1)) { s = s + i * i; continue; }
                while (!(s < 0) && -s != 3) { s = s - g(s, -i); if (s) break; }
            }
            return s + f(n - 1);
        }
        int g(int a, int b) { return a * b + (a - b) / 2; }",
    )
    .unwrap();
    assert_eq!(module.functions.len(), 2);
    for function in &module.functions {
        let mut written: Vec<usize> = Vec::new();
        for instr in &function.body {
            for n in temps_read(instr) {
                assert!(written.contains(&n), "t{} is read before it is written in {}", n, function.name);
            }
            if let Some(n) = temp_written(instr) {
                assert!(!written.contains(&n), "t{} is written twice in {}", n, function.name);
                written.push(n);
            }
        }
        assert!(!written.is_empty());
    }
}

#[test]
fn every_jump_has_its_label_once() {
    let module = lowered(
        "int f(int n) {
            for (int i = 0; i < n; i = i + 1) {
                if (i) { continue; } else if (n) { break; }
                while (n) { if (i) break; n = n - 1; }
            }
            return n;
        }
        void g() { while (1) { if (2) continue; } }",
    )
    .unwrap();
    for function in &module.functions {
        let labels: Vec<&String> = function
            .body
            .iter()
            .filter_map(|instr| match instr {
                Instruction::Label(name) => Some(name),
                _ => None,
            })
            .collect();
        for instr in &function.body {
            let target = match instr {
                Instruction::Goto(name) => name,
                Instruction::IfGoto { label, .. } => label,
                _ => continue,
            };
            assert_eq!(labels.iter().filter(|name| **name == target).count(), 1);
        }
    }
}

#[test]
fn a_module_can_be_copied() {
    let module = lowered("int a = 1; int f(int x) { return g(x, a); }").unwrap();
    assert_eq!(module.clone(), module);
    assert_eq!(module.functions[0].clone(), module.functions[0]);
    assert_eq!(module.globals[0].clone(), module.globals[0]);
    assert_eq!(module.functions[0].body[0].clone(), module.functions[0].body[0]);
}

#[test]
fn a_failure_before_anything_is_lowered_changes_nothing() {
    let mut lowerer = fresh();
    lowerer.emit(label("start"));
    for statement in [
        Statement::Break,
        Statement::Continue,
        Statement::Expr(Expression::CharLiteral('a')),
        Statement::Return(Some(Expression::CharLiteral('a'))),
        Statement::Block {
            items: vec![BlockItem::Decl(Declaration::Function {
                name: "g".to_string(),
                ret_type: Type::Void,
                params: vec![],
                body: Box::new(Statement::Return(None)),
            })],
        },
    ] {
        assert!(lowerer.lower_statement(&statement).is_err());
        assert_eq!(lowerer.instructions(), vec![label("start")]);
        assert_eq!(lowerer.next_temp(), Ok(t(0)));
        lowerer.clear_state();
        lowerer.emit(label("start"));
    }
    assert_eq!(lowerer.next_label(), Ok("L0".to_string()));
}

#[test]
fn an_assignment_to_no_variable_emits_no_assignment() {
    let mut lowerer = fresh();
    let plain = Expression::Assign {
        target: Box::new(Expression::IntLiteral(1)),
        value: Box::new(Expression::IntLiteral(2)),
    };
    assert_eq!(lowerer.lower_expression(&plain), Err(LowerError::AssignToNonVariable));
    assert_eq!(lowerer.instructions(), vec![]);
    // the value is lowered before the target is looked at, and stays
    let computed = Expression::Assign {
        target: Box::new(Expression::IntLiteral(1)),
        value: Box::new(parsed_expression("a + b;")),
    };
    assert_eq!(lowerer.lower_expression(&computed), Err(LowerError::AssignToNonVariable));
    assert_eq!(lowerer.instructions(), vec![binary(t(0), BinaryOp::Add, v("a"), v("b"))]);
    assert_eq!(lowerer.next_temp(), Ok(t(1)));
}

#[test]
fn nothing_is_lowered_after_a_failure() {
    let mut lowerer = fresh();
    let failing = Expression::Binary {
        operator: BinaryOp::Add,
        left_oper: Box::new(parsed_expression("f(x);")),
        right_oper: Box::new(Expression::Binary {
            operator: BinaryOp::Multiply,
            left_oper: Box::new(Expression::CharLiteral('c')),
            right_oper: Box::new(parsed_expression("g(y);")),
        }),
    };
    assert_eq!(lowerer.lower_expression(&failing), Err(LowerError::CharLiteral));
    assert_eq!(
        lowerer.instructions(),
        vec![Instruction::Call { dest: t(0), name: "f".to_string(), args: vec![v("x")] }]
    );

    let mut lowerer = fresh();
    let failing = Statement::While {
        cond: parsed_expression("a < 1;"),
        body: Box::new(Statement::Block {
            items: vec![
                BlockItem::Stmt(parsed_statement("a = a + 1;")),
                BlockItem::Stmt(Statement::Expr(Expression::CharLiteral('c'))),
                BlockItem::Stmt(parsed_statement("a = 0;")),
            ],
        }),
    };
    assert_eq!(lowerer.lower_statement(&failing), Err(LowerError::CharLiteral));
    assert_eq!(
        lowerer.instructions(),
        vec![
            goto("L0"),
            label("L0"),
            binary(t(0), BinaryOp::LessThan, v("a"), c(1)),
            if_goto(t(0), "L1"),
            goto("L2"),
            label("L1"),
            binary(t(1), BinaryOp::Add, v("a"), c(1)),
            Instruction::Assign(v("a"), t(1)),
        ]
    );
    assert_eq!(lowerer.next_label(), Ok("L3".to_string()));

    let mut lowerer = fresh();
    let failing = parsed_statement("for (int i = 0; i; i = i + 1) { if (i) break; continue; int g() { } }");
    assert_eq!(lowerer.lower_statement(&failing), Err(LowerError::NestedFunction));
    assert_eq!(
        lowerer.instructions(),
        vec![
            Instruction::Assign(v("i"), c(0)),
            goto("L0"),
            label("L0"),
            if_goto(v("i"), "L1"),
            goto("L3"),
            label("L1"),
            if_goto(v("i"), "L4"),
            goto("L5"),
            label("L4"),
            goto("L3"),
            goto("L6"),
            label("L5"),
            label("L6"),
            goto("L2"),
        ]
    );
    assert_eq!(lowerer.lower_statement(&Statement::Continue), Err(LowerError::ContinueOutsideLoop));
}

#[test]
fn a_failing_program_leaves_what_was_lowered_before() {
    let mut lowerer = fresh();
    let program = parsed("int g = 1; void f() { return; } void h() { x = 1; break; } void k() { }");
    assert_eq!(lowerer.lower_program(&program), Err(LowerError::BreakOutsideLoop));
    assert_eq!(lowerer.instructions(), vec![Instruction::Assign(v("x"), c(1))]);
    let module = lowerer.lower_program(&Program { items: vec![] }).unwrap();
    assert_eq!(module.globals.len(), 1);
    assert_eq!(module.functions.len(), 1);
    assert_eq!(module.functions[0].name, "f");
}

#[test]
fn the_instructions_so_far_can_be_read() {
    let mut lowerer = fresh();
    assert_eq!(lowerer.instructions(), vec![]);
    lowerer.emit(label("a"));
    lowerer.lower_statement(&parsed_statement("return 1;")).unwrap();
    assert_eq!(lowerer.instructions(), vec![label("a"), Instruction::Return(Some(c(1)))]);
    lowerer.clear_state();
    assert_eq!(lowerer.instructions(), vec![]);
}
