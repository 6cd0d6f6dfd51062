use bouncing_ball::tiny::{
    compile, AstNode, CodeGenerator, Expression, Lexer, Parser, Position, Token, TokenWithPos,
};

#[test]
fn test_lexer_keywords() {
    let mut lexer = Lexer::new("blah maybe");
    let tokens = lexer.tokenize().unwrap();
    assert_eq!(tokens[0].token, Token::Blah);
    assert_eq!(tokens[1].token, Token::Maybe);
    assert_eq!(tokens[2].token, Token::Eof);
}

#[test]
fn test_lexer_identifiers() {
    let mut lexer = Lexer::new("x y123 _test test_var");
    let tokens = lexer.tokenize().unwrap();
    assert_eq!(tokens[0].token, Token::Identifier("x".to_string()));
    assert_eq!(tokens[1].token, Token::Identifier("y123".to_string()));
    assert_eq!(tokens[2].token, Token::Identifier("_test".to_string()));
    assert_eq!(tokens[3].token, Token::Identifier("test_var".to_string()));
}

#[test]
fn test_lexer_numbers() {
    let mut lexer = Lexer::new("42 0 999");
    let tokens = lexer.tokenize().unwrap();
    assert_eq!(tokens[0].token, Token::Number(42));
    assert_eq!(tokens[1].token, Token::Number(0));
    assert_eq!(tokens[2].token, Token::Number(999));
}

#[test]
fn test_lexer_strings() {
    let mut lexer = Lexer::new(r#""hello" "world" "with \"quotes\"""#);
    let tokens = lexer.tokenize().unwrap();
    assert_eq!(tokens[0].token, Token::StringLiteral("hello".to_string()));
    assert_eq!(tokens[1].token, Token::StringLiteral("world".to_string()));
    assert_eq!(tokens[2].token, Token::StringLiteral("with \"quotes\"".to_string()));
}

#[test]
fn test_lexer_operators() {
    let mut lexer = Lexer::new("+ - =");
    let tokens = lexer.tokenize().unwrap();
    assert_eq!(tokens[0].token, Token::Plus);
    assert_eq!(tokens[1].token, Token::Minus);
    assert_eq!(tokens[2].token, Token::Equals);
}

#[test]
fn test_lexer_comments() {
    let mut lexer = Lexer::new("blah // this is a comment\nmaybe");
    let tokens = lexer.tokenize().unwrap();
    assert_eq!(tokens[0].token, Token::Blah);
    assert_eq!(tokens[1].token, Token::Maybe);
    assert_eq!(tokens[2].token, Token::Eof);
}

#[test]
fn test_lexer_position_tracking() {
    let mut lexer = Lexer::new("blah\nmaybe");
    let tokens = lexer.tokenize().unwrap();
    assert_eq!(tokens[0].position, Position { line: 1, column: 1 });
    assert_eq!(tokens[1].position, Position { line: 2, column: 1 });
}

#[test]
fn test_lexer_error_invalid_char() {
    let mut lexer = Lexer::new("blah @");
    let result = lexer.tokenize();
    assert!(result.is_err());
    assert!(result.unwrap_err().message.contains("Unexpected character"));
}

#[test]
fn test_lexer_error_unterminated_string() {
    let mut lexer = Lexer::new(r#""unterminated"#);
    let result = lexer.tokenize();
    assert!(result.is_err());
    assert!(result.unwrap_err().message.contains("Unterminated string"));
}

#[test]
fn test_parser_blah_number() {
    let tokens = vec![
        TokenWithPos { token: Token::Blah, position: Position::new() },
        TokenWithPos { token: Token::Number(42), position: Position::new() },
        TokenWithPos { token: Token::Eof, position: Position::new() },
    ];
    let mut parser = Parser::new(tokens);
    let ast = parser.parse().unwrap();
    assert_eq!(ast.len(), 1);
    assert_eq!(ast[0], AstNode::BlahStatement(Expression::Number(42)));
}

#[test]
fn test_parser_blah_string() {
    let tokens = vec![
        TokenWithPos { token: Token::Blah, position: Position::new() },
        TokenWithPos { token: Token::StringLiteral("hello".to_string()), position: Position::new() },
        TokenWithPos { token: Token::Eof, position: Position::new() },
    ];
    let mut parser = Parser::new(tokens);
    let ast = parser.parse().unwrap();
    assert_eq!(ast.len(), 1);
    assert_eq!(ast[0], AstNode::BlahStatement(Expression::StringLiteral("hello".to_string())));
}

#[test]
fn test_parser_maybe_declaration() {
    let tokens = vec![
        TokenWithPos { token: Token::Maybe, position: Position::new() },
        TokenWithPos { token: Token::Identifier("x".to_string()), position: Position::new() },
        TokenWithPos { token: Token::Equals, position: Position::new() },
        TokenWithPos { token: Token::Number(10), position: Position::new() },
        TokenWithPos { token: Token::Eof, position: Position::new() },
    ];
    let mut parser = Parser::new(tokens);
    let ast = parser.parse().unwrap();
    assert_eq!(ast.len(), 1);
    assert_eq!(ast[0], AstNode::MaybeDeclaration("x".to_string(), Expression::Number(10)));
}

#[test]
fn test_parser_arithmetic_add() {
    let tokens = vec![
        TokenWithPos { token: Token::Blah, position: Position::new() },
        TokenWithPos { token: Token::Number(5), position: Position::new() },
        TokenWithPos { token: Token::Plus, position: Position::new() },
        TokenWithPos { token: Token::Number(3), position: Position::new() },
        TokenWithPos { token: Token::Eof, position: Position::new() },
    ];
    let mut parser = Parser::new(tokens);
    let ast = parser.parse().unwrap();
    assert_eq!(ast.len(), 1);
    assert_eq!(ast[0], AstNode::BlahStatement(
        Expression::Add(
            Box::new(Expression::Number(5)),
            Box::new(Expression::Number(3))
        )
    ));
}

#[test]
fn test_parser_arithmetic_chain() {
    let tokens = vec![
        TokenWithPos { token: Token::Blah, position: Position::new() },
        TokenWithPos { token: Token::Number(10), position: Position::new() },
        TokenWithPos { token: Token::Plus, position: Position::new() },
        TokenWithPos { token: Token::Number(5), position: Position::new() },
        TokenWithPos { token: Token::Minus, position: Position::new() },
        TokenWithPos { token: Token::Number(3), position: Position::new() },
        TokenWithPos { token: Token::Eof, position: Position::new() },
    ];
    let mut parser = Parser::new(tokens);
    let ast = parser.parse().unwrap();
    assert_eq!(ast.len(), 1);
    // Should parse as (10 + 5) - 3 due to left-to-right associativity
    assert_eq!(ast[0], AstNode::BlahStatement(
        Expression::Subtract(
            Box::new(Expression::Add(
                Box::new(Expression::Number(10)),
                Box::new(Expression::Number(5))
            )),
            Box::new(Expression::Number(3))
        )
    ));
}

#[test]
fn test_parser_variable_usage() {
    let tokens = vec![
        TokenWithPos { token: Token::Maybe, position: Position::new() },
        TokenWithPos { token: Token::Identifier("x".to_string()), position: Position::new() },
        TokenWithPos { token: Token::Equals, position: Position::new() },
        TokenWithPos { token: Token::Number(10), position: Position::new() },
        TokenWithPos { token: Token::Blah, position: Position::new() },
        TokenWithPos { token: Token::Identifier("x".to_string()), position: Position::new() },
        TokenWithPos { token: Token::Eof, position: Position::new() },
    ];
    let mut parser = Parser::new(tokens);
    let ast = parser.parse().unwrap();
    assert_eq!(ast.len(), 2);
    assert_eq!(ast[0], AstNode::MaybeDeclaration("x".to_string(), Expression::Number(10)));
    assert_eq!(ast[1], AstNode::BlahStatement(Expression::Variable("x".to_string())));
}

#[test]
fn test_parser_error_undefined_variable() {
    let tokens = vec![
        TokenWithPos { token: Token::Blah, position: Position::new() },
        TokenWithPos { token: Token::Identifier("undefined".to_string()), position: Position::new() },
        TokenWithPos { token: Token::Eof, position: Position::new() },
    ];
    let mut parser = Parser::new(tokens);
    let result = parser.parse();
    assert!(result.is_err());
    assert!(result.unwrap_err().message.contains("Undefined variable"));
}

#[test]
fn test_parser_error_redeclaration() {
    let tokens = vec![
        TokenWithPos { token: Token::Maybe, position: Position::new() },
        TokenWithPos { token: Token::Identifier("x".to_string()), position: Position::new() },
        TokenWithPos { token: Token::Equals, position: Position::new() },
        TokenWithPos { token: Token::Number(10), position: Position::new() },
        TokenWithPos { token: Token::Maybe, position: Position::new() },
        TokenWithPos { token: Token::Identifier("x".to_string()), position: Position::new() },
        TokenWithPos { token: Token::Equals, position: Position::new() },
        TokenWithPos { token: Token::Number(20), position: Position::new() },
        TokenWithPos { token: Token::Eof, position: Position::new() },
    ];
    let mut parser = Parser::new(tokens);
    let result = parser.parse();
    assert!(result.is_err());
    assert!(result.unwrap_err().message.contains("already declared"));
}

#[test]
fn test_parser_error_string_in_arithmetic() {
    let tokens = vec![
        TokenWithPos { token: Token::Blah, position: Position::new() },
        TokenWithPos { token: Token::StringLiteral("hello".to_string()), position: Position::new() },
        TokenWithPos { token: Token::Plus, position: Position::new() },
        TokenWithPos { token: Token::Number(5), position: Position::new() },
        TokenWithPos { token: Token::Eof, position: Position::new() },
    ];
    let mut parser = Parser::new(tokens);
    let result = parser.parse();
    assert!(result.is_err());
    assert!(result.unwrap_err().message.contains("Cannot use strings in arithmetic"));
}

#[test]
fn test_parser_error_string_assignment() {
    let tokens = vec![
        TokenWithPos { token: Token::Maybe, position: Position::new() },
        TokenWithPos { token: Token::Identifier("x".to_string()), position: Position::new() },
        TokenWithPos { token: Token::Equals, position: Position::new() },
        TokenWithPos { token: Token::StringLiteral("hello".to_string()), position: Position::new() },
        TokenWithPos { token: Token::Eof, position: Position::new() },
    ];
    let mut parser = Parser::new(tokens);
    let result = parser.parse();
    assert!(result.is_err());
    assert!(result.unwrap_err().message.contains("Cannot assign string literals to variables"));
}

#[test]
fn test_parser_error_missing_equals() {
    let tokens = vec![
        TokenWithPos { token: Token::Maybe, position: Position::new() },
        TokenWithPos { token: Token::Identifier("x".to_string()), position: Position::new() },
        TokenWithPos { token: Token::Number(10), position: Position::new() },
        TokenWithPos { token: Token::Eof, position: Position::new() },
    ];
    let mut parser = Parser::new(tokens);
    let result = parser.parse();
    assert!(result.is_err());
    assert!(result.unwrap_err().message.contains("Expected '='"));
}

#[test]
fn test_code_generation_blah_number() {
    let ast = vec![AstNode::BlahStatement(Expression::Number(42))];
    let generator = CodeGenerator;
    let code = generator.generate(ast);
    assert!(code.contains("printf(\"%d\\n\", 42);"));
}

#[test]
fn test_code_generation_blah_string() {
    let ast = vec![AstNode::BlahStatement(Expression::StringLiteral("hello".to_string()))];
    let generator = CodeGenerator;
    let code = generator.generate(ast);
    assert!(code.contains("printf(\"%s\\n\", \"hello\");"));
}

#[test]
fn test_code_generation_maybe() {
    let ast = vec![AstNode::MaybeDeclaration("x".to_string(), Expression::Number(10))];
    let generator = CodeGenerator;
    let code = generator.generate(ast);
    assert!(code.contains("int x = 0;"));
    assert!(code.contains("int x_is_null = 0;"));
    assert!(code.contains("rand() % 2 == 0"));
    assert!(code.contains("x = 10;"));
    assert!(code.contains("x_is_null = 1;"));
}

#[test]
fn test_code_generation_variable_null_check() {
    let ast = vec![AstNode::BlahStatement(Expression::Variable("x".to_string()))];
    let generator = CodeGenerator;
    let code = generator.generate(ast);
    assert!(code.contains("(x_is_null ? 0 : x)"));
}

#[test]
fn test_code_generation_arithmetic() {
    let ast = vec![AstNode::BlahStatement(
        Expression::Add(
            Box::new(Expression::Number(5)),
            Box::new(Expression::Number(3))
        )
    )];
    let generator = CodeGenerator;
    let code = generator.generate(ast);
    assert!(code.contains("(5 + 3)"));
}

#[test]
fn test_code_generation_escape_sequences() {
    let ast = vec![AstNode::BlahStatement(
        Expression::StringLiteral("hello\nworld\t\"quoted\"".to_string())
    )];
    let generator = CodeGenerator;
    let code = generator.generate(ast);
    assert!(code.contains("hello\\nworld\\t\\\"quoted\\\""));
}

#[test]
fn test_integration_simple_program() {
    let source = "\r\n            maybe x = 10\r\n            blah x\r\n        ";
    let result = compile(source);
    assert!(result.is_ok());
    let code = result.unwrap();
    assert!(code.contains("int x = 0;"));
    assert!(code.contains("int x_is_null = 0;"));
    assert!(code.contains("printf(\"%d\\n\", (x_is_null ? 0 : x));"));
}

#[test]
fn test_integration_arithmetic_program() {
    let source = "\r\n            maybe x = 10\r\n            maybe y = 5\r\n            blah x + y\r\n            blah x - y\r\n        ";
    let result = compile(source);
    assert!(result.is_ok());
    let code = result.unwrap();
    assert!(code.contains("((x_is_null ? 0 : x) + (y_is_null ? 0 : y))"));
    assert!(code.contains("((x_is_null ? 0 : x) - (y_is_null ? 0 : y))"));
}

#[test]
fn test_integration_error_handling() {
    // Test undefined variable
    let source = "blah undefined_var";
    let result = compile(source);
    assert!(result.is_err());
    assert!(result.unwrap_err().message.contains("Undefined variable"));

    // Test invalid syntax
    let source = "blah +";
    let result = compile(source);
    assert!(result.is_err());

    // Test string in arithmetic
    let source = r#"blah "hello" + 5"#;
    let result = compile(source);
    assert!(result.is_err());
    assert!(result.unwrap_err().message.contains("Cannot use strings in arithmetic"));
}

#[test]
fn test_empty_program() {
    let source = "";
    let result = compile(source);
    assert!(result.is_ok());
    let code = result.unwrap();
    assert!(code.contains("int main()"));
    assert!(code.contains("return 0;"));
}

#[test]
fn test_whitespace_handling() {
    let source = "   maybe   x   =   10   \n   blah   x   ";
    let result = compile(source);
    assert!(result.is_ok());
}

#[test]
fn test_comment_handling() {
    let source = "\r\n            // This is a comment\r\n            maybe x = 10  // Another comment\r\n            blah x\r\n            // Final comment\r\n        ";
    let result = compile(source);
    assert!(result.is_ok());
}
