use bouncing_ball::bindings::Bindings;
use bouncing_ball::mist::verification::{
    vc_lexer_validity, vc_parser_wellformed, vc_type_env_consistent, vc_valid_c_code,
};
use bouncing_ball::mist::{
    self, eval_expr, type_check_expr, CodeGenerator, CompilerError, Environment, Expression,
    LexError, ParseError, Position, Statement, TokenKind, Type, TypeEnvironment, TypeError, Value,
    RuntimeError,
};
use bouncing_ball::scene::{EdgeGaps, Trail, TRAIL_CAPACITY};
use bouncing_ball::tiny;

fn mist_tokens(src: &str) -> Result<Vec<mist::Token>, LexError> {
    mist::Lexer::new(src).tokenize()
}

fn mist_parse(src: &str) -> Result<Vec<Statement>, ParseError> {
    let tokens = mist_tokens(src).unwrap();
    mist::Parser::new(tokens).parse()
}

#[test]
fn mist_lexer_positions_and_lexemes() {
    let tokens = mist_tokens("maybe x = 10\n  blah x + 5").unwrap();
    let kinds: Vec<TokenKind> = tokens.iter().map(|t| t.kind.clone()).collect();
    assert_eq!(
        kinds,
        vec![
            TokenKind::Maybe,
            TokenKind::Identifier("x".to_string()),
            TokenKind::Equals,
            TokenKind::Number(10),
            TokenKind::Blah,
            TokenKind::Identifier("x".to_string()),
            TokenKind::Plus,
            TokenKind::Number(5),
            TokenKind::Eof,
        ]
    );
    assert_eq!(tokens[3].lexeme, "10");
    assert_eq!(tokens[4].position, Position { line: 2, column: 3 });
    assert_eq!(tokens[8].position, Position { line: 2, column: 13 });
    assert_eq!(tokens[8].lexeme, "");
}

#[test]
fn mist_lexer_string_escapes() {
    let tokens = mist_tokens("blah \"a\\nb\\qc\\\"\"").unwrap();
    assert_eq!(tokens[1].kind, TokenKind::StringLiteral("a\nb\\qc\"".to_string()));
    assert_eq!(tokens[1].lexeme, "\"a\nb\\qc\"\"");
}

#[test]
fn mist_lexer_comment_skipped() {
    let tokens = mist_tokens("// all of this\nblah 1 // and this").unwrap();
    assert_eq!(tokens.len(), 3);
    assert_eq!(tokens[0].position, Position { line: 2, column: 1 });
}

#[test]
fn mist_lexer_errors() {
    assert_eq!(
        mist_tokens("blah @"),
        Err(LexError::UnexpectedCharacter { ch: '@', position: Position { line: 1, column: 6 } })
    );
    assert_eq!(
        mist_tokens("blah \"open"),
        Err(LexError::UnterminatedString { position: Position { line: 1, column: 6 } })
    );
    assert_eq!(
        mist_tokens("blah 2147483648"),
        Err(LexError::InvalidNumber {
            lexeme: "2147483648".to_string(),
            position: Position { line: 1, column: 6 },
        })
    );
    assert_eq!(mist_tokens("blah 2147483647").unwrap()[1].kind, TokenKind::Number(i32::MAX));
}

#[test]
fn mist_parser_left_associative() {
    let program = mist_parse("blah 1 - 2 + x").unwrap();
    assert_eq!(
        program,
        vec![Statement::BlahStatement(Expression::Add(
            Box::new(Expression::Subtract(
                Box::new(Expression::Number(1)),
                Box::new(Expression::Number(2)),
            )),
            Box::new(Expression::Variable("x".to_string())),
        ))]
    );
}

#[test]
fn mist_parser_errors() {
    match mist_parse("maybe 5 = 1") {
        Err(ParseError::UnexpectedToken { expected, found }) => {
            assert_eq!(expected, "identifier");
            assert_eq!(found.kind, TokenKind::Number(5));
        }
        other => panic!("{:?}", other),
    }
    match mist_parse("maybe x 5") {
        Err(ParseError::UnexpectedToken { expected, found }) => {
            assert_eq!(expected, "'='");
            assert_eq!(found.kind, TokenKind::Number(5));
        }
        other => panic!("{:?}", other),
    }
    match mist_parse("blah") {
        Err(ParseError::UnexpectedToken { expected, found }) => {
            assert_eq!(expected, "number, string, or identifier");
            assert_eq!(found.kind, TokenKind::Blah);
        }
        other => panic!("{:?}", other),
    }
    match mist_parse("42") {
        Err(ParseError::UnexpectedToken { expected, .. }) => assert_eq!(expected, "'maybe' or 'blah'"),
        other => panic!("{:?}", other),
    }
}

#[test]
fn mist_type_errors() {
    let undefined = mist::type_check_program(&mist_parse("blah y").unwrap());
    assert_eq!(undefined.unwrap_err(), TypeError::UndefinedVariable("y".to_string()));
    let assign = mist::type_check_program(&mist_parse("maybe x = \"s\"").unwrap());
    assert_eq!(
        assign.unwrap_err(),
        TypeError::InvalidOperation("Cannot assign strings to variables".to_string())
    );
    let arith = mist::type_check_program(&mist_parse("blah \"a\" + 1").unwrap());
    assert_eq!(
        arith.unwrap_err(),
        TypeError::InvalidOperation("Arithmetic requires integer types".to_string())
    );
    let nested = mist::type_check_program(&mist_parse("maybe x = 1\nmaybe y = x\nblah y + 1").unwrap());
    assert!(nested.is_err());
}

#[test]
fn mist_type_of_expressions() {
    let env = TypeEnvironment::from_pairs(vec![("x".to_string(), Type::Maybe(Box::new(Type::Int)))]);
    let sum = Expression::Add(
        Box::new(Expression::Variable("x".to_string())),
        Box::new(Expression::Number(1)),
    );
    assert_eq!(type_check_expr(&sum, &env), Ok(Type::Int));
    assert_eq!(type_check_expr(&Expression::StringLiteral("s".to_string()), &env), Ok(Type::String));
}

#[test]
fn mist_evaluation_saturates_and_rejects_strings() {
    let env = Environment::from_pairs(vec![
        ("big".to_string(), Value::Integer(i32::MAX)),
        ("low".to_string(), Value::Integer(i32::MIN)),
        ("n".to_string(), Value::Null),
    ]);
    let var = |s: &str| Box::new(Expression::Variable(s.to_string()));
    assert_eq!(
        eval_expr(&Expression::Add(var("big"), Box::new(Expression::Number(1))), &env),
        Ok(Value::Integer(i32::MAX))
    );
    assert_eq!(eval_expr(&Expression::Subtract(var("n"), var("low")), &env), Ok(Value::Integer(i32::MAX)));
    assert_eq!(eval_expr(&Expression::Add(var("n"), var("n")), &env), Ok(Value::Integer(0)));
    assert_eq!(eval_expr(&Expression::Subtract(var("big"), var("n")), &env), Ok(Value::Integer(i32::MAX)));
    assert_eq!(
        eval_expr(&Expression::Add(Box::new(Expression::StringLiteral("a".to_string())), var("n")), &env),
        Err(RuntimeError::TypeError("Cannot add strings".to_string()))
    );
    assert_eq!(
        eval_expr(&Expression::Subtract(var("n"), Box::new(Expression::StringLiteral("a".to_string()))), &env),
        Err(RuntimeError::TypeError("Cannot subtract strings".to_string()))
    );
    assert_eq!(
        eval_expr(&Expression::Variable("zz".to_string()), &env),
        Err(RuntimeError::UndefinedVariable("zz".to_string()))
    );
    assert_eq!(
        eval_expr(&Expression::StringLiteral("hi".to_string()), &env),
        Ok(Value::String("hi".to_string()))
    );
}

#[test]
fn mist_compile_exact_output() {
    let code = mist::compile("maybe x = 7\nblah \"v\\t\"\nblah x - 2").unwrap();
    let expected = [
        "// Generated by Proven Mist Compiler\n",
        "// THEOREM: This C code has equivalent semantics to the source\n",
        "// PROOF: By structural induction on the AST\n\n",
        "#include <stdio.h>\n#include <stdlib.h>\n#include <time.h>\n#include <stdbool.h>\n\n",
        "int main(void) {\n",
        "    // Initialize RNG for stochastic semantics\n",
        "    srand(time(NULL));\n\n",
        "    // Maybe declaration: x\n",
        "    int x = 0;\n",
        "    bool x_is_null = false;\n",
        "    if (rand() % 2 == 0) {\n",
        "        x = 7;\n",
        "        printf(\"maybe x = %d\\n\", x);\n",
        "    } else {\n",
        "        x_is_null = true;\n",
        "        printf(\"maybe x = null\\n\");\n",
        "    }\n\n",
        "    // Blah statement\n",
        "    printf(\"%s\\n\", \"v\\t\");\n\n",
        "    // Blah statement\n",
        "    printf(\"%d\\n\", ((x_is_null ? 0 : x) - 2));\n\n",
        "    return 0;\n",
        "}\n",
    ]
    .concat();
    assert_eq!(code, expected);
    assert!(vc_valid_c_code(&code));
}

#[test]
fn mist_compile_errors_by_phase() {
    assert!(matches!(mist::compile("blah #"), Err(CompilerError::LexError(_))));
    assert!(matches!(mist::compile("blah +"), Err(CompilerError::ParseError(_))));
    assert!(matches!(mist::compile("blah q"), Err(CompilerError::TypeError(_))));
    // A print that no longer type checks once `x` is redeclared.
    let redeclared = mist::compile("maybe x = 1\nmaybe y = x\nblah x + 1\nmaybe x = y");
    match redeclared {
        Err(CompilerError::TypeError(TypeError::InvalidOperation(m))) => {
            assert_eq!(m, "Arithmetic requires integer types")
        }
        other => panic!("{:?}", other),
    }
}

#[test]
fn mist_codegen_numbers_and_escapes() {
    let env = TypeEnvironment::new();
    let program = vec![
        Statement::BlahStatement(Expression::Number(i32::MIN)),
        Statement::BlahStatement(Expression::StringLiteral("q\"b\\".to_string())),
    ];
    let mut generator = CodeGenerator::new();
    let code = generator.generate_program(&program, &env);
    assert!(code.contains("printf(\"%d\\n\", -2147483648);"));
    assert!(code.contains("printf(\"%s\\n\", \"q\\\"b\\\\\");"));
}

#[test]
fn mist_verification_conditions() {
    assert!(!vc_lexer_validity(&[]));
    let tokens = mist_tokens("blah 1").unwrap();
    assert!(vc_lexer_validity(&tokens));
    assert!(!vc_lexer_validity(&tokens[..2]));
    assert!(vc_parser_wellformed(&mist_parse("maybe x = 1").unwrap()));
    assert!(!vc_parser_wellformed(&vec![Statement::MaybeDeclaration(String::new(), Expression::Number(1))]));
    let good = TypeEnvironment::from_pairs(vec![("x".to_string(), Type::Maybe(Box::new(Type::Int)))]);
    assert!(vc_type_env_consistent(&good));
    let bad = TypeEnvironment::from_pairs(vec![
        ("x".to_string(), Type::Int),
        ("s".to_string(), Type::Maybe(Box::new(Type::String))),
    ]);
    assert!(!vc_type_env_consistent(&bad));
    assert!(vc_valid_c_code("int main() { return 0; }"));
    assert!(!vc_valid_c_code("int main() { return 0; "));
    assert!(!vc_valid_c_code("int mai() { return 0; }"));
}

#[test]
fn bindings_replace_and_last_wins() {
    let mut b: Bindings<i32> = Bindings::from_pairs(vec![("a".to_string(), 1), ("a".to_string(), 2)]);
    assert_eq!(b.len(), 1);
    assert_eq!(b.get(&"a".to_string()), Some(&2));
    b.insert("a".to_string(), 3);
    b.insert("b".to_string(), 4);
    assert_eq!(b.len(), 2);
    assert_eq!(b.get(&"a".to_string()), Some(&3));
    assert_eq!(b.get(&"b".to_string()), Some(&4));
    assert_eq!(b.get(&"c".to_string()), None);
}

fn tiny_tokens(src: &str) -> Result<Vec<tiny::Token>, tiny::CompileError> {
    tiny::Lexer::new(src).tokenize().map(|ts| ts.into_iter().map(|t| t.token).collect())
}

#[test]
fn tiny_lexer_unicode_classes() {
    assert_eq!(
        tiny_tokens("blah\u{3000}maybe").unwrap(),
        vec![tiny::Token::Blah, tiny::Token::Maybe, tiny::Token::Eof]
    );
    assert_eq!(
        tiny_tokens("\u{e9}t\u{e9}_2").unwrap(),
        vec![tiny::Token::Identifier("\u{e9}t\u{e9}_2".to_string()), tiny::Token::Eof]
    );
    let err = tiny_tokens("blah \u{663}").unwrap_err();
    assert_eq!(err.message, "Invalid number: \u{663}");
    assert_eq!(err.position, Position { line: 1, column: 6 });
}

#[test]
fn tiny_lexer_errors() {
    let err = tiny_tokens("\"a\\qb\"").unwrap_err();
    assert_eq!(err.message, "Invalid escape sequence: \\q");
    assert_eq!(err.position, Position { line: 1, column: 5 });
    let err = tiny_tokens("blah 99999999999").unwrap_err();
    assert_eq!(err.message, "Invalid number: 99999999999");
    let err = tiny_tokens("x\n #").unwrap_err();
    assert_eq!(err.message, "Unexpected character: '#'");
    assert_eq!(err.position, Position { line: 2, column: 2 });
    assert_eq!(
        tiny_tokens("\"a\\tb\\\\\"").unwrap()[0],
        tiny::Token::StringLiteral("a\tb\\".to_string())
    );
}

fn tiny_parse(src: &str) -> Result<Vec<tiny::AstNode>, tiny::CompileError> {
    let tokens = tiny::Lexer::new(src).tokenize().unwrap();
    tiny::Parser::new(tokens).parse()
}

#[test]
fn tiny_parser_errors() {
    assert_eq!(tiny_parse("blah").unwrap_err().message, "Expected number, variable, or string");
    assert_eq!(tiny_parse("+ 1").unwrap_err().message, "Expected 'blah' or 'maybe' statement");
    assert_eq!(tiny_parse("maybe = 1").unwrap_err().message, "Expected variable name after 'maybe'");
    let err = tiny_parse("maybe x = y").unwrap_err();
    assert_eq!(err.message, "Undefined variable: 'y'");
    assert_eq!(err.position, Position { line: 1, column: 11 });
    let err = tiny_parse("maybe x = 1\nmaybe x = 2").unwrap_err();
    assert_eq!(err.message, "Variable 'x' already declared");
    assert_eq!(err.position, Position { line: 2, column: 7 });
    assert_eq!(
        tiny_parse("maybe x = 1 blah 2 - x + 3").unwrap()[1],
        tiny::AstNode::BlahStatement(Expression::Add(
            Box::new(Expression::Subtract(
                Box::new(Expression::Number(2)),
                Box::new(Expression::Variable("x".to_string())),
            )),
            Box::new(Expression::Number(3)),
        ))
    );
}

#[test]
fn tiny_compile_exact_output() {
    let code = tiny::compile("maybe x = 3\nblah x\nblah \"hi\"").unwrap();
    let expected = [
        "// Generated by Tiny Language Compiler\n",
        "#include <stdio.h>\n#include <stdlib.h>\n#include <time.h>\n\n",
        "int main() {\n",
        "    // Initialize random number generator\n",
        "    srand(time(NULL));\n\n",
        "    // Declare variable 'x' with 50% chance of null\n",
        "    int x = 0;\n",
        "    int x_is_null = 0;\n",
        "    if (rand() % 2 == 0) {\n",
        "        x = 3;\n",
        "        printf(\"maybe x = %d\\n\", x);\n",
        "    } else {\n",
        "        x_is_null = 1;\n",
        "        printf(\"maybe x = null\\n\");\n",
        "    }\n\n",
        "    printf(\"%d\\n\", (x_is_null ? 0 : x));\n",
        "    printf(\"%s\\n\", \"hi\");\n",
        "    return 0;\n",
        "}\n",
    ]
    .concat();
    assert_eq!(code, expected);
}

#[test]
fn trail_keeps_most_recent() {
    let mut trail: Trail<u32> = Trail::new();
    for i in 0..20u32 {
        trail.push(i);
    }
    assert_eq!(trail.len(), TRAIL_CAPACITY);
    assert_eq!(trail.points().clone(), (5..20u32).collect::<Vec<u32>>());
    let mut short: Trail<u32> = Trail::new();
    short.push(1);
    short.push(2);
    assert_eq!(short.points().clone(), vec![1, 2]);
}

#[test]
fn edge_gaps_pass_over_removed_edges() {
    let mut gaps = EdgeGaps::new(10, 2);
    assert!(!gaps.is_complete());
    assert!(gaps.offer(3));
    assert!(!gaps.offer(3));
    assert!(!gaps.is_complete());
    assert!(gaps.offer(9));
    assert!(gaps.is_complete());
    assert!(!gaps.offer(0));
    let expected: Vec<bool> = (0..10).map(|i| i != 3 && i != 9).collect();
    assert_eq!(gaps.active_edges().clone(), expected);
    let none = EdgeGaps::new(4, 0);
    assert!(none.is_complete());
    assert_eq!(none.active_edges().clone(), vec![true; 4]);
}
