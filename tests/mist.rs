use bouncing_ball::mist::{
    compile, eval_expr, type_check_program, Environment, Expression, Lexer, Parser, Position,
    Statement, Token, TokenKind, Type, TypeError, Value,
};

#[test]
fn test_lexer_totality() {
    let inputs = vec![
        "",
        "blah",
        "maybe x = 10",
        "// comment\nblah 42",
        "blah \"hello\\nworld\"",
        "x + y - z",
        "!@#$%",
    ];
    for input in inputs {
        let mut lexer = Lexer::new(input);
        let result = lexer.tokenize();
        assert!(result.is_ok() || result.is_err());
    }
}

#[test]
fn test_lexer_determinism() {
    let input = "maybe x = 10\nblah x + 5";
    let mut results = Vec::new();
    for _ in 0..10 {
        let mut lexer = Lexer::new(input);
        results.push(lexer.tokenize().unwrap());
    }
    for i in 1..results.len() {
        assert_eq!(results[0], results[i]);
    }
}

#[test]
fn test_parser_soundness() {
    let tokens = vec![
        Token { kind: TokenKind::Maybe, position: Position::new(), lexeme: "maybe".to_string() },
        Token {
            kind: TokenKind::Identifier("x".to_string()),
            position: Position::new(),
            lexeme: "x".to_string(),
        },
        Token { kind: TokenKind::Equals, position: Position::new(), lexeme: "=".to_string() },
        Token { kind: TokenKind::Number(10), position: Position::new(), lexeme: "10".to_string() },
        Token { kind: TokenKind::Eof, position: Position::new(), lexeme: "".to_string() },
    ];
    let mut parser = Parser::new(tokens);
    let result = parser.parse();
    assert!(result.is_ok());
    let program = result.unwrap();
    assert_eq!(program.len(), 1);
    assert!(matches!(program[0], Statement::MaybeDeclaration(_, _)));
}

#[test]
fn test_type_soundness() {
    let program = vec![
        Statement::MaybeDeclaration("x".to_string(), Expression::Number(10)),
        Statement::BlahStatement(Expression::Variable("x".to_string())),
    ];
    let result = type_check_program(&program);
    assert!(result.is_ok());
    let env = result.unwrap();
    assert_eq!(env.get(&"x".to_string()), Some(&Type::Maybe(Box::new(Type::Int))));
}

#[test]
fn test_type_error_undefined_variable() {
    let program = vec![Statement::BlahStatement(Expression::Variable("undefined".to_string()))];
    let result = type_check_program(&program);
    assert!(result.is_err());
    assert!(matches!(result.unwrap_err(), TypeError::UndefinedVariable(_)));
}

#[test]
fn test_type_error_string_arithmetic() {
    let program = vec![Statement::BlahStatement(Expression::Add(
        Box::new(Expression::StringLiteral("hello".to_string())),
        Box::new(Expression::Number(5)),
    ))];
    let result = type_check_program(&program);
    assert!(result.is_err());
}

#[test]
fn test_null_semantics() {
    let env = Environment::from_pairs(vec![
        ("x".to_string(), Value::Null),
        ("y".to_string(), Value::Integer(5)),
    ]);
    let expr = Expression::Add(
        Box::new(Expression::Variable("x".to_string())),
        Box::new(Expression::Variable("y".to_string())),
    );
    let result = eval_expr(&expr, &env);
    assert_eq!(result, Ok(Value::Integer(5)));
    let expr = Expression::Subtract(
        Box::new(Expression::Variable("x".to_string())),
        Box::new(Expression::Variable("y".to_string())),
    );
    let result = eval_expr(&expr, &env);
    assert_eq!(result, Ok(Value::Integer(-5)));
}

#[test]
fn test_compile_simple_program() {
    let source = "maybe x = 10\nblah x";
    let result = compile(source);
    assert!(result.is_ok());
    let c_code = result.unwrap();
    assert!(c_code.contains("int x = 0;"));
    assert!(c_code.contains("bool x_is_null = false;"));
    assert!(c_code.contains("rand() % 2 == 0"));
    assert!(c_code.contains("printf"));
}

#[test]
fn test_compile_arithmetic() {
    let source = "maybe x = 5\nmaybe y = 3\nblah x + y\nblah x - y";
    let result = compile(source);
    assert!(result.is_ok());
    let c_code = result.unwrap();
    assert!(c_code.contains("(x_is_null ? 0 : x)"));
    assert!(c_code.contains("(y_is_null ? 0 : y)"));
}

#[test]
fn test_parser_completeness() {
    let valid_programs = vec![
        "",
        "blah 42",
        "blah \"hello\"",
        "maybe x = 10",
        "maybe x = 10\nblah x",
        "maybe x = 5\nmaybe y = 3\nblah x + y",
        "blah 1 + 2 - 3",
    ];
    for source in valid_programs {
        let mut lexer = Lexer::new(source);
        let tokens = lexer.tokenize().unwrap();
        let mut parser = Parser::new(tokens);
        let result = parser.parse();
        assert!(result.is_ok(), "Failed to parse: {}", source);
    }
}

#[test]
fn test_type_safety() {
    let source = r#"
            maybe x = 10
            maybe y = 5
            blah x + y
            blah x - y
            blah "result:"
            blah x
        "#;
    let mut lexer = Lexer::new(source);
    let tokens = lexer.tokenize().unwrap();
    let mut parser = Parser::new(tokens);
    let program = parser.parse().unwrap();
    let _type_env = type_check_program(&program).unwrap();
    let runtime_env = Environment::from_pairs(vec![
        ("x".to_string(), Value::Integer(10)),
        ("y".to_string(), Value::Integer(5)),
    ]);
    for stmt in &program {
        match stmt {
            Statement::BlahStatement(expr) => {
                let result = eval_expr(expr, &runtime_env);
                assert!(result.is_ok());
            }
            _ => {}
        }
    }
}

#[test]
fn test_verification_condition_determinism() {
    let source = "maybe x = 10\nblah x";
    let mut results = Vec::new();
    for _ in 0..5 {
        results.push(compile(source).unwrap());
    }
    for i in 1..results.len() {
        assert_eq!(results[0], results[i]);
    }
}
