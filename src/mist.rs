//! The Mist language: syntax, evaluation, type checking, lexing, parsing and
//! C code generation.
//!
//! ```text
//! Program    ::= Statement*
//! Statement  ::= "maybe" Identifier "=" Expression | "blah" Expression
//! Expression ::= Primary (("+" | "-") Primary)*
//! Primary    ::= Number | String | Identifier
//! ```

pub mod verification;

use vstd::prelude::*;
use crate::bindings::Bindings;
use crate::text::{chars_of, escape_text, push_escaped, push_char, push_str, numeral, parse_unsigned, int_numeral, parse_unsigned_i32, is_digit_char, is_letter_char};

verus! {

// ---------------------------------------------------------------------------
// Syntax and values
// ---------------------------------------------------------------------------

#[derive(Debug, PartialEq, Eq, Hash)]
pub enum Expression {
    Number(i32),
    Variable(String),
    StringLiteral(String),
    Add(Box<Expression>, Box<Expression>),
    Subtract(Box<Expression>, Box<Expression>),
}

#[derive(Debug, PartialEq)]
pub enum Statement {
    MaybeDeclaration(String, Expression),
    BlahStatement(Expression),
}

pub type Program = Vec<Statement>;

/// Runtime values.
#[derive(Debug, Clone, PartialEq)]
pub enum Value {
    Integer(i32),
    Null,
    String(String),
}

/// Runtime environment: variable name to value.
pub type Environment = Bindings<Value>;

#[derive(Debug, Clone, PartialEq)]
pub enum RuntimeError {
    UndefinedVariable(String),
    TypeError(String),
}

/// Why an evaluation fails.
pub enum EvalFault {
    UndefinedVariable(Seq<char>),
    AddStrings,
    SubtractStrings,
}

/// `err` is the runtime error that reports `f`.
pub open spec fn reports_eval_fault(err: RuntimeError, f: EvalFault) -> bool {
    match f {
        EvalFault::UndefinedVariable(x) => err matches RuntimeError::UndefinedVariable(y) && y@ == x,
        EvalFault::AddStrings => err matches RuntimeError::TypeError(m) && m@ == "Cannot add strings"@,
        EvalFault::SubtractStrings => err matches RuntimeError::TypeError(m) && m@
            == "Cannot subtract strings"@,
    }
}

/// Clamps an integer into the range of `i32`.
pub open spec fn saturate(x: int) -> i32 {
    if x > i32::MAX {
        i32::MAX
    } else if x < i32::MIN {
        i32::MIN
    } else {
        x as i32
    }
}

/// Addition of values: null counts as nothing, integers add with saturation,
/// strings cannot be added.
pub open spec fn add_spec(v1: Value, v2: Value) -> Result<Value, EvalFault> {
    match (v1, v2) {
        (Value::Integer(a), Value::Integer(b)) => Ok(Value::Integer(saturate(a + b))),
        (Value::Null, Value::Integer(n)) => Ok(Value::Integer(n)),
        (Value::Integer(n), Value::Null) => Ok(Value::Integer(n)),
        (Value::Null, Value::Null) => Ok(Value::Integer(0)),
        _ => Err(EvalFault::AddStrings),
    }
}

/// Subtraction of values: null counts as zero, integers subtract with
/// saturation, strings cannot be subtracted.
pub open spec fn subtract_spec(v1: Value, v2: Value) -> Result<Value, EvalFault> {
    match (v1, v2) {
        (Value::Integer(a), Value::Integer(b)) => Ok(Value::Integer(saturate(a - b))),
        (Value::Null, Value::Integer(n)) => Ok(Value::Integer(saturate(-n))),
        (Value::Integer(n), Value::Null) => Ok(Value::Integer(n)),
        (Value::Null, Value::Null) => Ok(Value::Integer(0)),
        _ => Err(EvalFault::SubtractStrings),
    }
}

/// Big-step evaluation of an expression in an environment; the left operand
/// is evaluated first.
pub open spec fn eval_spec(e: Expression, env: Map<Seq<char>, Value>) -> Result<Value, EvalFault>
    decreases e,
{
    match e {
        Expression::Number(n) => Ok(Value::Integer(n)),
        Expression::StringLiteral(s) => Ok(Value::String(s)),
        Expression::Variable(x) => if env.contains_key(x@) {
            Ok(env[x@])
        } else {
            Err(EvalFault::UndefinedVariable(x@))
        },
        Expression::Add(e1, e2) => match eval_spec(*e1, env) {
            Err(f) => Err(f),
            Ok(v1) => match eval_spec(*e2, env) {
                Err(f) => Err(f),
                Ok(v2) => add_spec(v1, v2),
            },
        },
        Expression::Subtract(e1, e2) => match eval_spec(*e1, env) {
            Err(f) => Err(f),
            Ok(v1) => match eval_spec(*e2, env) {
                Err(f) => Err(f),
                Ok(v2) => subtract_spec(v1, v2),
            },
        },
    }
}

impl Value {
    /// A copy of this value.
    pub fn duplicate(&self) -> (r: Value)
        ensures
            r == *self,
    {
        match self {
            Value::Integer(n) => Value::Integer(*n),
            Value::Null => Value::Null,
            Value::String(s) => Value::String(s.clone()),
        }
    }
}

fn runtime_error(msg: &str) -> (r: RuntimeError)
    ensures
        r matches RuntimeError::TypeError(m) && m@ == msg@,
{
    RuntimeError::TypeError(String::from_str(msg))
}

fn saturating_i32(x: i64) -> (r: i32)
    ensures
        r == saturate(x as int),
{
    if x > i32::MAX as i64 {
        i32::MAX
    } else if x < i32::MIN as i64 {
        i32::MIN
    } else {
        x as i32
    }
}

fn add_values(v1: Value, v2: Value) -> (r: Result<Value, RuntimeError>)
    ensures
        match (r, add_spec(v1, v2)) {
            (Ok(a), Ok(b)) => a == b,
            (Err(e), Err(f)) => reports_eval_fault(e, f),
            _ => false,
        },
{
    match (v1, v2) {
        (Value::Integer(n1), Value::Integer(n2)) => Ok(
            Value::Integer(saturating_i32(n1 as i64 + n2 as i64)),
        ),
        (Value::Null, Value::Integer(n)) => Ok(Value::Integer(n)),
        (Value::Integer(n), Value::Null) => Ok(Value::Integer(n)),
        (Value::Null, Value::Null) => Ok(Value::Integer(0)),
        _ => Err(runtime_error("Cannot add strings")),
    }
}

fn subtract_values(v1: Value, v2: Value) -> (r: Result<Value, RuntimeError>)
    ensures
        match (r, subtract_spec(v1, v2)) {
            (Ok(a), Ok(b)) => a == b,
            (Err(e), Err(f)) => reports_eval_fault(e, f),
            _ => false,
        },
{
    match (v1, v2) {
        (Value::Integer(n1), Value::Integer(n2)) => Ok(
            Value::Integer(saturating_i32(n1 as i64 - n2 as i64)),
        ),
        (Value::Null, Value::Integer(n)) => Ok(Value::Integer(saturating_i32(-(n as i64)))),
        (Value::Integer(n), Value::Null) => Ok(Value::Integer(n)),
        (Value::Null, Value::Null) => Ok(Value::Integer(0)),
        _ => Err(runtime_error("Cannot subtract strings")),
    }
}

/// Evaluates `expr` in `env`.
pub fn eval_expr(expr: &Expression, env: &Environment) -> (r: Result<Value, RuntimeError>)
    requires
        env.wf(),
    ensures
        match (r, eval_spec(*expr, env@)) {
            (Ok(a), Ok(b)) => a == b,
            (Err(e), Err(f)) => reports_eval_fault(e, f),
            _ => false,
        },
    decreases expr,
{
    match expr {
        Expression::Number(n) => Ok(Value::Integer(*n)),
        Expression::StringLiteral(s) => Ok(Value::String(s.clone())),
        Expression::Variable(x) => match env.get(x) {
            Some(v) => Ok(v.duplicate()),
            None => Err(RuntimeError::UndefinedVariable(x.clone())),
        },
        Expression::Add(e1, e2) => {
            let v1 = match eval_expr(e1, env) {
                Ok(v) => v,
                Err(e) => return Err(e),
            };
            let v2 = match eval_expr(e2, env) {
                Ok(v) => v,
                Err(e) => return Err(e),
            };
            add_values(v1, v2)
        },
        Expression::Subtract(e1, e2) => {
            let v1 = match eval_expr(e1, env) {
                Ok(v) => v,
                Err(e) => return Err(e),
            };
            let v2 = match eval_expr(e2, env) {
                Ok(v) => v,
                Err(e) => return Err(e),
            };
            subtract_values(v1, v2)
        },
    }
}

// ---------------------------------------------------------------------------
// Types
// ---------------------------------------------------------------------------

/// Types of Mist expressions.
#[derive(Debug, PartialEq, Eq)]
pub enum Type {
    Int,
    String,
    Maybe(Box<Type>),
}

/// Type environment: variable name to type.
pub type TypeEnvironment = Bindings<Type>;

#[derive(Debug, Clone, PartialEq)]
pub enum TypeError {
    UndefinedVariable(String),
    TypeMismatch { expected: String, found: String },
    InvalidOperation(String),
}

/// Why type checking fails.
pub enum TypeFault {
    UndefinedVariable(Seq<char>),
    NonIntegerOperand,
    StringAssignment,
}

/// `err` is the type error that reports `f`.
pub open spec fn reports_type_fault(err: TypeError, f: TypeFault) -> bool {
    match f {
        TypeFault::UndefinedVariable(x) => err matches TypeError::UndefinedVariable(y) && y@ == x,
        TypeFault::NonIntegerOperand => err matches TypeError::InvalidOperation(m) && m@
            == "Arithmetic requires integer types"@,
        TypeFault::StringAssignment => err matches TypeError::InvalidOperation(m) && m@
            == "Cannot assign strings to variables"@,
    }
}

/// Types that arithmetic accepts: `Int` and `Maybe(Int)`.
pub open spec fn arithmetic_type(t: Type) -> bool {
    match t {
        Type::Int => true,
        Type::Maybe(inner) => *inner == Type::Int,
        Type::String => false,
    }
}

/// The type of an expression: numbers are `Int`, literals `String`, a
/// variable has its declared type, and a sum or difference of arithmetic
/// operands is `Int`.
pub open spec fn type_spec(e: Expression, env: Map<Seq<char>, Type>) -> Result<Type, TypeFault>
    decreases e,
{
    match e {
        Expression::Number(_) => Ok(Type::Int),
        Expression::StringLiteral(_) => Ok(Type::String),
        Expression::Variable(x) => if env.contains_key(x@) {
            Ok(env[x@])
        } else {
            Err(TypeFault::UndefinedVariable(x@))
        },
        Expression::Add(e1, e2) => operands_type(type_spec(*e1, env), type_spec(*e2, env)),
        Expression::Subtract(e1, e2) => operands_type(type_spec(*e1, env), type_spec(*e2, env)),
    }
}

/// The type of a binary arithmetic expression from those of its operands.
pub open spec fn operands_type(t1: Result<Type, TypeFault>, t2: Result<Type, TypeFault>) -> Result<
    Type,
    TypeFault,
> {
    match t1 {
        Err(f) => Err(f),
        Ok(a) => match t2 {
            Err(f) => Err(f),
            Ok(b) => if arithmetic_type(a) && arithmetic_type(b) {
                Ok(Type::Int)
            } else {
                Err(TypeFault::NonIntegerOperand)
            },
        },
    }
}

/// Checks the statements from index `i` on in the environment `env`; a
/// declaration binds its name to `Maybe` of its expression's type, and a
/// string may not be assigned.
pub open spec fn check_from(p: Seq<Statement>, i: nat, env: Map<Seq<char>, Type>) -> Result<
    Map<Seq<char>, Type>,
    TypeFault,
>
    decreases p.len() - i,
{
    if i >= p.len() {
        Ok(env)
    } else {
        match p[i as int] {
            Statement::MaybeDeclaration(x, e) => match type_spec(e, env) {
                Err(f) => Err(f),
                Ok(t) => if t == Type::String {
                    Err(TypeFault::StringAssignment)
                } else {
                    check_from(p, i + 1, env.insert(x@, Type::Maybe(Box::new(t))))
                },
            },
            Statement::BlahStatement(e) => match type_spec(e, env) {
                Err(f) => Err(f),
                Ok(_) => check_from(p, i + 1, env),
            },
        }
    }
}

/// The type environment that a whole program builds, or its first fault.
pub open spec fn program_type_spec(p: Seq<Statement>) -> Result<Map<Seq<char>, Type>, TypeFault> {
    check_from(p, 0, Map::empty())
}

impl Type {
    /// A copy of this type.
    pub fn duplicate(&self) -> (r: Type)
        ensures
            r == *self,
        decreases self,
    {
        match self {
            Type::Int => Type::Int,
            Type::String => Type::String,
            Type::Maybe(inner) => Type::Maybe(Box::new(inner.duplicate())),
        }
    }
}

/// A value of type `t`: a `Maybe` type also admits null.
pub open spec fn fits(v: Value, t: Type) -> bool
    decreases t,
{
    match t {
        Type::Int => v is Integer,
        Type::String => v is String,
        Type::Maybe(inner) => v is Null || fits(v, *inner),
    }
}

/// Every variable that `tenv` types has, in `venv`, a value of its type.
pub open spec fn env_fits(venv: Map<Seq<char>, Value>, tenv: Map<Seq<char>, Type>) -> bool {
    forall|k: Seq<char>|
        #[trigger] tenv.contains_key(k) ==> venv.contains_key(k) && fits(venv[k], tenv[k])
}

proof fn lemma_arithmetic_value(v: Value, t: Type)
    requires
        arithmetic_type(t),
        fits(v, t),
    ensures
        v is Integer || v is Null,
{
    if let Type::Maybe(inner) = t {
        assert(fits(v, *inner) == (v is Integer));
    }
}

/// Type soundness: an expression that type checks evaluates, in any
/// environment whose values fit their types, without error and to a value
/// of its type.
pub proof fn lemma_type_soundness(e: Expression, tenv: Map<Seq<char>, Type>, venv: Map<Seq<char>, Value>)
    requires
        type_spec(e, tenv) is Ok,
        env_fits(venv, tenv),
    ensures
        eval_spec(e, venv) is Ok,
        fits(eval_spec(e, venv)->Ok_0, type_spec(e, tenv)->Ok_0),
    decreases e,
{
    match e {
        Expression::Variable(x) => {
            assert(tenv.contains_key(x@));
            assert(venv.contains_key(x@) && fits(venv[x@], tenv[x@]));
            assert(eval_spec(e, venv) == Ok::<Value, EvalFault>(venv[x@]));
            assert(type_spec(e, tenv) == Ok::<Type, TypeFault>(tenv[x@]));
        },
        Expression::Add(a, b) | Expression::Subtract(a, b) => {
            lemma_type_soundness(*a, tenv, venv);
            lemma_type_soundness(*b, tenv, venv);
            lemma_arithmetic_value(eval_spec(*a, venv)->Ok_0, type_spec(*a, tenv)->Ok_0);
            lemma_arithmetic_value(eval_spec(*b, venv)->Ok_0, type_spec(*b, tenv)->Ok_0);
        },
        _ => {},
    }
}

fn type_error(msg: &str) -> (r: TypeError)
    ensures
        r matches TypeError::InvalidOperation(m) && m@ == msg@,
{
    TypeError::InvalidOperation(String::from_str(msg))
}

fn can_use_in_arithmetic(t: &Type) -> (r: bool)
    ensures
        r == arithmetic_type(*t),
{
    match t {
        Type::Int => true,
        Type::Maybe(inner) => matches!(**inner, Type::Int),
        Type::String => false,
    }
}

/// The type of `expr` in `env`.
pub fn type_check_expr(expr: &Expression, env: &TypeEnvironment) -> (r: Result<Type, TypeError>)
    requires
        env.wf(),
    ensures
        match (r, type_spec(*expr, env@)) {
            (Ok(a), Ok(b)) => a == b,
            (Err(e), Err(f)) => reports_type_fault(e, f),
            _ => false,
        },
    decreases expr,
{
    match expr {
        Expression::Number(_) => Ok(Type::Int),
        Expression::StringLiteral(_) => Ok(Type::String),
        Expression::Variable(x) => match env.get(x) {
            Some(t) => Ok(t.duplicate()),
            None => Err(TypeError::UndefinedVariable(x.clone())),
        },
        Expression::Add(e1, e2) | Expression::Subtract(e1, e2) => {
            let t1 = match type_check_expr(e1, env) {
                Ok(t) => t,
                Err(e) => return Err(e),
            };
            let t2 = match type_check_expr(e2, env) {
                Ok(t) => t,
                Err(e) => return Err(e),
            };
            if can_use_in_arithmetic(&t1) && can_use_in_arithmetic(&t2) {
                Ok(Type::Int)
            } else {
                Err(type_error("Arithmetic requires integer types"))
            }
        },
    }
}

/// Type checks a program, returning the types of its variables.
pub fn type_check_program(program: &Program) -> (r: Result<TypeEnvironment, TypeError>)
    ensures
        match (r, program_type_spec(program@)) {
            (Ok(env), Ok(m)) => env.wf() && env@ == m,
            (Err(e), Err(f)) => reports_type_fault(e, f),
            _ => false,
        },
{
    let mut env = TypeEnvironment::new();
    let mut i: usize = 0;
    while i < program.len()
        invariant
            i <= program@.len(),
            env.wf(),
            program_type_spec(program@) == check_from(program@, i as nat, env@),
        decreases program@.len() - i,
    {
        match &program[i] {
            Statement::MaybeDeclaration(x, e) => {
                let t = match type_check_expr(e, &env) {
                    Ok(t) => t,
                    Err(err) => return Err(err),
                };
                if matches!(t, Type::String) {
                    return Err(type_error("Cannot assign strings to variables"));
                }
                env.insert(x.clone(), Type::Maybe(Box::new(t)));
            },
            Statement::BlahStatement(e) => {
                match type_check_expr(e, &env) {
                    Ok(_) => {},
                    Err(err) => return Err(err),
                }
            },
        }
        i = i + 1;
    }
    Ok(env)
}

// ---------------------------------------------------------------------------
// Lexer
// ---------------------------------------------------------------------------

#[derive(Debug, Clone, PartialEq)]
pub struct Token {
    pub kind: TokenKind,
    pub position: Position,
    pub lexeme: String,
}

#[derive(Debug, Clone, PartialEq)]
pub enum TokenKind {
    Blah,
    Maybe,
    Number(i32),
    StringLiteral(String),
    Identifier(String),
    Plus,
    Minus,
    Equals,
    Eof,
}

/// A line and column in the source, both counted from 1.
#[derive(Debug, Clone, Copy, PartialEq)]
pub struct Position {
    pub line: usize,
    pub column: usize,
}

/// The position after `p` once `c` is read: a newline starts the next line.
pub open spec fn advance_spec(p: Position, c: char) -> Position {
    if c == '\n' {
        Position { line: (p.line + 1) as usize, column: 1 }
    } else {
        Position { line: p.line, column: (p.column + 1) as usize }
    }
}

/// The position after `p` once the characters `s[i..j]` are read.
pub open spec fn pos_over(s: Seq<char>, i: int, j: int, p: Position) -> Position
    decreases j - i,
{
    if j <= i {
        p
    } else {
        advance_spec(pos_over(s, i, j - 1, p), s[j - 1])
    }
}

impl Position {
    pub fn new() -> (r: Position)
        ensures
            r == (Position { line: 1, column: 1 }),
    {
        Position { line: 1, column: 1 }
    }

    /// Moves past `ch`.
    pub fn advance(&mut self, ch: char)
        requires
            old(self).line < usize::MAX,
            old(self).column < usize::MAX,
        ensures
            *final(self) == advance_spec(*old(self), ch),
    {
        if ch == '\n' {
            self.line = self.line + 1;
            self.column = 1;
        } else {
            self.column = self.column + 1;
        }
    }
}

/// A token kind, its text given as characters.
pub enum KindModel {
    Blah,
    Maybe,
    Number(i32),
    StringLiteral(Seq<char>),
    Identifier(Seq<char>),
    Plus,
    Minus,
    Equals,
    Eof,
}

/// A token, its text given as characters.
pub struct TokenModel {
    pub kind: KindModel,
    pub position: Position,
    pub lexeme: Seq<char>,
}

impl View for TokenKind {
    type V = KindModel;

    open spec fn view(&self) -> KindModel {
        match self {
            TokenKind::Blah => KindModel::Blah,
            TokenKind::Maybe => KindModel::Maybe,
            TokenKind::Number(n) => KindModel::Number(*n),
            TokenKind::StringLiteral(s) => KindModel::StringLiteral(s@),
            TokenKind::Identifier(s) => KindModel::Identifier(s@),
            TokenKind::Plus => KindModel::Plus,
            TokenKind::Minus => KindModel::Minus,
            TokenKind::Equals => KindModel::Equals,
            TokenKind::Eof => KindModel::Eof,
        }
    }
}

impl View for Token {
    type V = TokenModel;

    open spec fn view(&self) -> TokenModel {
        TokenModel { kind: self.kind@, position: self.position, lexeme: self.lexeme@ }
    }
}

/// The models of a sequence of tokens.
pub open spec fn tokens_model(ts: Seq<Token>) -> Seq<TokenModel> {
    ts.map_values(|t: Token| t@)
}

#[derive(Debug, Clone, PartialEq)]
pub enum LexError {
    UnexpectedCharacter { ch: char, position: Position },
    UnterminatedString { position: Position },
    InvalidNumber { lexeme: String, position: Position },
}

/// Why lexing fails.
pub enum LexFault {
    UnexpectedCharacter(char, Position),
    UnterminatedString(Position),
    InvalidNumber(Seq<char>, Position),
}

/// `err` is the lexical error that reports `f`.
pub open spec fn reports_lex_fault(err: LexError, f: LexFault) -> bool {
    match f {
        LexFault::UnexpectedCharacter(c, p) => err == LexError::UnexpectedCharacter {
            ch: c,
            position: p,
        },
        LexFault::UnterminatedString(p) => err == LexError::UnterminatedString { position: p },
        LexFault::InvalidNumber(l, p) => err matches LexError::InvalidNumber { lexeme, position }
            && lexeme@ == l && position == p,
    }
}

/// Space, tab, carriage return or newline.
pub open spec fn is_space(c: char) -> bool {
    c == ' ' || c == '\t' || c == '\r' || c == '\n'
}

/// A character that may start an identifier.
pub open spec fn starts_word(c: char) -> bool {
    is_letter_char(c) || c == '_'
}

/// A character that may continue an identifier.
pub open spec fn continues_word(c: char) -> bool {
    is_letter_char(c) || is_digit_char(c) || c == '_'
}

/// Where skipping blanks and `//` comments from `i` stops; `in_comment`
/// says that a comment is being skipped.
pub open spec fn skip_end(s: Seq<char>, i: int, in_comment: bool) -> int
    decreases s.len() - i, if in_comment { 1int } else { 0int },
{
    if i < 0 || i >= s.len() {
        i
    } else if in_comment {
        if s[i] == '\n' {
            skip_end(s, i, false)
        } else {
            skip_end(s, i + 1, true)
        }
    } else if is_space(s[i]) {
        skip_end(s, i + 1, false)
    } else if s[i] == '/' && i + 1 < s.len() && s[i + 1] == '/' {
        skip_end(s, i + 2, true)
    } else {
        i
    }
}

/// The end of the run of ASCII digits from `i`.
pub open spec fn digits_end(s: Seq<char>, i: int) -> int
    decreases s.len() - i,
{
    if i < 0 || i >= s.len() || !is_digit_char(s[i]) {
        i
    } else {
        digits_end(s, i + 1)
    }
}

/// The end of the run of identifier characters from `i`.
pub open spec fn word_end(s: Seq<char>, i: int) -> int
    decreases s.len() - i,
{
    if i < 0 || i >= s.len() || !continues_word(s[i]) {
        i
    } else {
        word_end(s, i + 1)
    }
}

/// The character that the escape `\\c` stands for, for the escapes
/// `\\n`, `\\t`, `\\\\` and `\\"`.
pub open spec fn escaped(c: char) -> Option<char> {
    if c == 'n' {
        Some('\n')
    } else if c == 't' {
        Some('\t')
    } else if c == '\\' {
        Some('\\')
    } else if c == '"' {
        Some('"')
    } else {
        None
    }
}

/// Scans the body of a string literal from `i`, having read `acc`: the index
/// after the closing quote and the value, or `None` when no quote closes it.
/// A backslash that starts no known escape stands for itself.
pub open spec fn scan_string(s: Seq<char>, i: int, acc: Seq<char>) -> Option<(int, Seq<char>)>
    decreases s.len() - i,
{
    if i < 0 || i >= s.len() {
        None
    } else if s[i] == '"' {
        Some((i + 1, acc))
    } else if s[i] == '\\' {
        if i + 1 < s.len() && escaped(s[i + 1]) is Some {
            scan_string(s, i + 2, acc.push(escaped(s[i + 1])->0))
        } else {
            scan_string(s, i + 1, acc.push('\\'))
        }
    } else {
        scan_string(s, i + 1, acc.push(s[i]))
    }
}

/// The keyword or identifier that a word is.
pub open spec fn word_kind(w: Seq<char>) -> KindModel {
    if w == "blah"@ {
        KindModel::Blah
    } else if w == "maybe"@ {
        KindModel::Maybe
    } else {
        KindModel::Identifier(w)
    }
}

/// The token that starts at `i` (where no blank starts), read from position
/// `p`, and the index after it.
pub open spec fn lex_token(s: Seq<char>, i: int, p: Position) -> Result<(TokenModel, int), LexFault> {
    let c = s[i];
    if c == '+' {
        Ok((TokenModel { kind: KindModel::Plus, position: p, lexeme: "+"@ }, i + 1))
    } else if c == '-' {
        Ok((TokenModel { kind: KindModel::Minus, position: p, lexeme: "-"@ }, i + 1))
    } else if c == '=' {
        Ok((TokenModel { kind: KindModel::Equals, position: p, lexeme: "="@ }, i + 1))
    } else if c == '"' {
        match scan_string(s, i + 1, Seq::empty()) {
            None => Err(LexFault::UnterminatedString(p)),
            Some((k, v)) => Ok(
                (
                    TokenModel {
                        kind: KindModel::StringLiteral(v),
                        position: p,
                        lexeme: seq!['"'] + v + seq!['"'],
                    },
                    k,
                ),
            ),
        }
    } else if is_digit_char(c) {
        let k = digits_end(s, i);
        let digits = s.subrange(i, k);
        match parse_unsigned_i32(digits) {
            Some(n) => Ok((TokenModel { kind: KindModel::Number(n), position: p, lexeme: digits }, k)),
            None => Err(LexFault::InvalidNumber(digits, p)),
        }
    } else if starts_word(c) {
        let k = word_end(s, i);
        let w = s.subrange(i, k);
        Ok((TokenModel { kind: word_kind(w), position: p, lexeme: w }, k))
    } else {
        Err(LexFault::UnexpectedCharacter(c, p))
    }
}

/// The tokens of `s` from index `i`, read from position `p`, ending with
/// `Eof`; or the first lexical fault.
pub open spec fn lex_from(s: Seq<char>, i: int, p: Position) -> Result<Seq<TokenModel>, LexFault>
    decreases s.len() - i,
{
    let j = skip_end(s, i, false);
    let pj = pos_over(s, i, j, p);
    if j < i || j >= s.len() {
        Ok(seq![TokenModel { kind: KindModel::Eof, position: pj, lexeme: Seq::empty() }])
    } else {
        match lex_token(s, j, pj) {
            Err(f) => Err(f),
            Ok((t, k)) => if k <= j || k > s.len() {
                Err(LexFault::UnexpectedCharacter(s[j], pj))
            } else {
                match lex_from(s, k, pos_over(s, j, k, pj)) {
                    Err(f) => Err(f),
                    Ok(rest) => Ok(seq![t] + rest),
                }
            },
        }
    }
}

/// The tokens of a whole source text.
pub open spec fn lex_spec(s: Seq<char>) -> Result<Seq<TokenModel>, LexFault> {
    lex_from(s, 0, Position { line: 1, column: 1 })
}

/// `r` is the token or error that `expected` describes, read from index `i`
/// and position `p` of `s`, and `after` is the lexer past it.
spec fn lexed(
    r: Result<Token, LexError>,
    expected: Result<(TokenModel, int), LexFault>,
    s: Seq<char>,
    i: int,
    p: Position,
    after: Lexer,
) -> bool {
    match (r, expected) {
        (Ok(t), Ok((m, k))) => {
            &&& t@ == m
            &&& after.current == k
            &&& k > i
            &&& after.position == pos_over(s, i, k, p)
        },
        (Err(e), Err(f)) => reports_lex_fault(e, f),
        _ => false,
    }
}

fn is_ascii_digit(c: char) -> (r: bool)
    ensures
        r == is_digit_char(c),
{
    '0' <= c && c <= '9'
}

fn is_ascii_alphabetic(c: char) -> (r: bool)
    ensures
        r == is_letter_char(c),
{
    ('a' <= c && c <= 'z') || ('A' <= c && c <= 'Z')
}

fn is_word_char(c: char) -> (r: bool)
    ensures
        r == continues_word(c),
{
    is_ascii_alphabetic(c) || is_ascii_digit(c) || c == '_'
}

/// Reads Mist source text into tokens.
pub struct Lexer {
    input: Vec<char>,
    current: usize,
    position: Position,
}

impl Lexer {
    /// The lexer's state is consistent: the index lies within the input, and
    /// the line and column have grown at most once per character read.
    pub closed spec fn wf(&self) -> bool {
        &&& self.current <= self.input@.len()
        &&& self.input@.len() < usize::MAX
        &&& self.position.line <= self.current + 1
        &&& self.position.column <= self.current + 1
    }

    /// The characters being read.
    pub closed spec fn source(&self) -> Seq<char> {
        self.input@
    }

    /// The index of the next character to read.
    pub closed spec fn index(&self) -> int {
        self.current as int
    }

    /// The position of the next character to read.
    pub closed spec fn pos(&self) -> Position {
        self.position
    }

    pub fn new(input: &str) -> (r: Lexer)
        requires
            input@.len() < usize::MAX,
        ensures
            r.wf(),
            r.source() == input@,
            r.index() == 0,
            r.pos() == (Position { line: 1, column: 1 }),
    {
        Lexer { input: chars_of(input), current: 0, position: Position::new() }
    }

    /// Reads the whole remaining input: the tokens, ending with `Eof`, or
    /// the first lexical error.
    pub fn tokenize(&mut self) -> (r: Result<Vec<Token>, LexError>)
        requires
            old(self).wf(),
        ensures
            final(self).wf(),
            final(self).source() == old(self).source(),
            match (r, lex_from(old(self).source(), old(self).index(), old(self).pos())) {
                (Ok(ts), Ok(m)) => tokens_model(ts@) == m,
                (Err(e), Err(f)) => reports_lex_fault(e, f),
                _ => false,
            },
    {
        let ghost s = self.input@;
        let ghost whole = lex_from(s, self.current as int, self.position);
        let mut tokens: Vec<Token> = Vec::new();
        loop
            invariant
                self.wf(),
                self.input@ == s,
                s == old(self).input@,
                whole == lex_from(old(self).input@, old(self).current as int, old(self).position),
                whole == match lex_from(s, self.current as int, self.position) {
                    Ok(rest) => Ok(tokens_model(tokens@) + rest),
                    Err(f) => Err(f),
                },
            decreases s.len() - self.current,
        {
            let ghost before = tokens_model(tokens@);
            self.skip_whitespace_and_comments();
            if self.is_at_end() {
                let eof = Token { kind: TokenKind::Eof, position: self.position, lexeme: String::new() };
                tokens.push(eof);
                assert(tokens_model(tokens@) =~= before + seq![eof@]);
                return Ok(tokens);
            }
            let token = match self.next_token() {
                Ok(t) => t,
                Err(e) => return Err(e),
            };
            tokens.push(token);
            proof {
                let rest = lex_from(s, self.current as int, self.position);
                assert(tokens_model(tokens@) =~= before + seq![token@]);
                if let Ok(r) = rest {
                    assert(before + (seq![token@] + r) =~= tokens_model(tokens@) + r);
                }
            }
        }
    }

    fn skip_whitespace_and_comments(&mut self)
        requires
            old(self).wf(),
        ensures
            final(self).wf(),
            final(self).input@ == old(self).input@,
            final(self).current >= old(self).current,
            final(self).current == skip_end(old(self).input@, old(self).current as int, false),
            final(self).position == pos_over(
                old(self).input@,
                old(self).current as int,
                final(self).current as int,
                old(self).position,
            ),
    {
        let ghost s = self.input@;
        let ghost i0 = self.current as int;
        let ghost p0 = self.position;
        assert(pos_over(s, i0, i0, p0) == p0);
        loop
            invariant
                self.wf(),
                self.input@ == s,
                s == old(self).input@,
                i0 == old(self).current,
                p0 == old(self).position,
                i0 <= self.current,
                skip_end(s, i0, false) == skip_end(s, self.current as int, false),
                self.position == pos_over(s, i0, self.current as int, p0),
            decreases s.len() - self.current,
        {
            let ch = match self.peek() {
                Some(ch) => ch,
                None => return,
            };
            if ch == ' ' || ch == '\t' || ch == '\r' || ch == '\n' {
                self.advance();
            } else if ch == '/' && matches!(self.peek_next(), Some('/')) {
                self.advance();
                assert(self.position == pos_over(s, i0, self.current as int, p0));
                self.advance();
                assert(self.position == pos_over(s, i0, self.current as int, p0));
                let ghost c1 = self.current;
                while !self.at_line_end()
                    invariant
                        c1 <= self.current,
                        self.wf(),
                        self.input@ == s,
                        s == old(self).input@,
                        i0 == old(self).current,
                        p0 == old(self).position,
                        i0 <= self.current,
                        skip_end(s, i0, false) == skip_end(s, self.current as int, true),
                        self.position == pos_over(s, i0, self.current as int, p0),
                    decreases s.len() - self.current,
                {
                    self.advance();
                }
            } else {
                return;
            }
        }
    }

    fn at_line_end(&self) -> (r: bool)
        ensures
            r == (self.current >= self.input@.len() || self.input@[self.current as int] == '\n'),
    {
        self.current >= self.input.len() || self.input[self.current] == '\n'
    }

    fn next_token(&mut self) -> (r: Result<Token, LexError>)
        requires
            old(self).wf(),
            old(self).current < old(self).input@.len(),
        ensures
            final(self).wf(),
            final(self).input@ == old(self).input@,
            lexed(
                r,
                lex_token(old(self).input@, old(self).current as int, old(self).position),
                old(self).input@,
                old(self).current as int,
                old(self).position,
                *final(self),
            ),
    {
        let ghost s = self.input@;
        let ghost i = self.current as int;
        let start_pos = self.position;
        assert(pos_over(s, i, i, start_pos) == start_pos);
        let ch = self.input[self.current];
        if ch == '+' {
            self.advance();
            Ok(Token { kind: TokenKind::Plus, position: start_pos, lexeme: String::from_str("+") })
        } else if ch == '-' {
            self.advance();
            Ok(Token { kind: TokenKind::Minus, position: start_pos, lexeme: String::from_str("-") })
        } else if ch == '=' {
            self.advance();
            Ok(Token { kind: TokenKind::Equals, position: start_pos, lexeme: String::from_str("=") })
        } else if ch == '"' {
            self.lex_string()
        } else if is_ascii_digit(ch) {
            self.lex_number()
        } else if is_ascii_alphabetic(ch) || ch == '_' {
            self.lex_identifier()
        } else {
            self.advance();
            Err(LexError::UnexpectedCharacter { ch, position: start_pos })
        }
    }

    fn lex_string(&mut self) -> (r: Result<Token, LexError>)
        requires
            old(self).wf(),
            old(self).current < old(self).input@.len(),
            old(self).input@[old(self).current as int] == '"',
        ensures
            final(self).wf(),
            final(self).input@ == old(self).input@,
            lexed(
                r,
                lex_token(old(self).input@, old(self).current as int, old(self).position),
                old(self).input@,
                old(self).current as int,
                old(self).position,
                *final(self),
            ),
    {
        let ghost s = self.input@;
        let ghost i0 = self.current as int;
        let start_pos = self.position;
        let mut value = String::new();
        self.advance();
        assert(pos_over(s, i0, i0, start_pos) == start_pos);
        loop
            invariant
                self.wf(),
                self.input@ == s,
                s == old(self).input@,
                i0 == old(self).current,
                start_pos == old(self).position,
                i0 < self.current,
                s[i0] == '"',
                scan_string(s, i0 + 1, Seq::empty()) == scan_string(s, self.current as int, value@),
                self.position == pos_over(s, i0, self.current as int, start_pos),
            decreases s.len() - self.current,
        {
            let ch = match self.peek() {
                Some(ch) => ch,
                None => return Err(LexError::UnterminatedString { position: start_pos }),
            };
            if ch == '"' {
                self.advance();
                let mut lexeme = String::new();
                push_char(&mut lexeme, '"');
                push_str(&mut lexeme, value.as_str());
                push_char(&mut lexeme, '"');
                assert(lexeme@ =~= seq!['"'] + value@ + seq!['"']);
                return Ok(Token { kind: TokenKind::StringLiteral(value), position: start_pos, lexeme });
            }
            if ch == '\\' {
                self.advance();
                assert(self.position == pos_over(s, i0, self.current as int, start_pos));
                match self.peek() {
                    Some('n') => {
                        self.advance();
                        push_char(&mut value, '\n');
                    },
                    Some('t') => {
                        self.advance();
                        push_char(&mut value, '\t');
                    },
                    Some('\\') => {
                        self.advance();
                        push_char(&mut value, '\\');
                    },
                    Some('"') => {
                        self.advance();
                        push_char(&mut value, '"');
                    },
                    _ => push_char(&mut value, '\\'),
                }
            } else {
                push_char(&mut value, ch);
                self.advance();
            }
        }
    }

    fn lex_number(&mut self) -> (r: Result<Token, LexError>)
        requires
            old(self).wf(),
            old(self).current < old(self).input@.len(),
            is_digit_char(old(self).input@[old(self).current as int]),
        ensures
            final(self).wf(),
            final(self).input@ == old(self).input@,
            lexed(
                r,
                lex_token(old(self).input@, old(self).current as int, old(self).position),
                old(self).input@,
                old(self).current as int,
                old(self).position,
                *final(self),
            ),
    {
        let ghost s = self.input@;
        let ghost i0 = self.current as int;
        let start_pos = self.position;
        let mut lexeme = String::new();
        let mut digits: Vec<char> = Vec::new();
        while self.current < self.input.len() && is_ascii_digit(self.input[self.current])
            invariant
                self.wf(),
                self.input@ == s,
                s == old(self).input@,
                i0 == old(self).current,
                start_pos == old(self).position,
                i0 <= self.current,
                digits@ == s.subrange(i0, self.current as int),
                lexeme@ == digits@,
                digits_end(s, i0) == digits_end(s, self.current as int),
                self.position == pos_over(s, i0, self.current as int, start_pos),
            decreases s.len() - self.current,
        {
            let ch = self.input[self.current];
            push_char(&mut lexeme, ch);
            digits.push(ch);
            self.advance();
            assert(digits@ =~= s.subrange(i0, self.current as int));
        }
        match parse_unsigned(&digits) {
            Some(n) => Ok(Token { kind: TokenKind::Number(n), position: start_pos, lexeme }),
            None => Err(LexError::InvalidNumber { lexeme, position: start_pos }),
        }
    }

    fn lex_identifier(&mut self) -> (r: Result<Token, LexError>)
        requires
            old(self).wf(),
            old(self).current < old(self).input@.len(),
            starts_word(old(self).input@[old(self).current as int]),
        ensures
            final(self).wf(),
            final(self).input@ == old(self).input@,
            lexed(
                r,
                lex_token(old(self).input@, old(self).current as int, old(self).position),
                old(self).input@,
                old(self).current as int,
                old(self).position,
                *final(self),
            ),
    {
        let ghost s = self.input@;
        let ghost i0 = self.current as int;
        let start_pos = self.position;
        let mut lexeme = String::new();
        while self.current < self.input.len() && is_word_char(self.input[self.current])
            invariant
                self.wf(),
                self.input@ == s,
                s == old(self).input@,
                i0 == old(self).current,
                start_pos == old(self).position,
                i0 <= self.current,
                lexeme@ == s.subrange(i0, self.current as int),
                word_end(s, i0) == word_end(s, self.current as int),
                self.position == pos_over(s, i0, self.current as int, start_pos),
            decreases s.len() - self.current,
        {
            let ch = self.input[self.current];
            push_char(&mut lexeme, ch);
            self.advance();
            assert(lexeme@ =~= s.subrange(i0, self.current as int));
        }
        let kind = if lexeme == String::from_str("blah") {
            TokenKind::Blah
        } else if lexeme == String::from_str("maybe") {
            TokenKind::Maybe
        } else {
            TokenKind::Identifier(lexeme.clone())
        };
        Ok(Token { kind, position: start_pos, lexeme })
    }

    fn is_at_end(&self) -> (r: bool)
        ensures
            r == (self.current >= self.input@.len()),
    {
        self.current >= self.input.len()
    }

    fn peek(&self) -> (r: Option<char>)
        ensures
            r == (if self.current < self.input@.len() {
                Some(self.input@[self.current as int])
            } else {
                None
            }),
    {
        if self.current < self.input.len() {
            Some(self.input[self.current])
        } else {
            None
        }
    }

    fn peek_next(&self) -> (r: Option<char>)
        requires
            self.current < usize::MAX,
        ensures
            r == (if self.current + 1 < self.input@.len() {
                Some(self.input@[self.current + 1])
            } else {
                None
            }),
    {
        if self.current + 1 < self.input.len() {
            Some(self.input[self.current + 1])
        } else {
            None
        }
    }

    fn advance(&mut self) -> (r: Option<char>)
        requires
            old(self).wf(),
        ensures
            final(self).wf(),
            final(self).input@ == old(self).input@,
            old(self).current < old(self).input@.len() ==> {
                &&& r == Some(old(self).input@[old(self).current as int])
                &&& final(self).current == old(self).current + 1
                &&& final(self).position == advance_spec(old(self).position, r->0)
            },
            old(self).current >= old(self).input@.len() ==> r is None && *final(self) == *old(self),
    {
        match self.peek() {
            Some(ch) => {
                self.current = self.current + 1;
                self.position.advance(ch);
                Some(ch)
            },
            None => None,
        }
    }
}

// ---------------------------------------------------------------------------
// Parser
// ---------------------------------------------------------------------------

#[derive(Debug, Clone, PartialEq)]
pub enum ParseError {
    UnexpectedToken { expected: String, found: Token },
    UnexpectedEof { expected: String },
}

/// Why parsing fails: what was expected, and the token found instead.
pub enum ParseFault {
    UnexpectedToken(Seq<char>, Token),
}

/// `err` is the parse error that reports `f`.
pub open spec fn reports_parse_fault(err: ParseError, f: ParseFault) -> bool {
    match f {
        ParseFault::UnexpectedToken(e, t) => err matches ParseError::UnexpectedToken {
            expected,
            found,
        } && expected@ == e && found == t,
    }
}

/// The index after reading one token at `i`: reading stops at `Eof`.
pub open spec fn step(t: Seq<Token>, i: int) -> int {
    if t[i].kind is Eof {
        i
    } else {
        i + 1
    }
}

/// A number, string or identifier read at `i`, and the index after it.
pub open spec fn primary_spec(t: Seq<Token>, i: int) -> Result<(Expression, int), ParseFault> {
    let j = step(t, i);
    let tok = t[j - 1];
    match tok.kind {
        TokenKind::Number(n) => Ok((Expression::Number(n), j)),
        TokenKind::StringLiteral(s) => Ok((Expression::StringLiteral(s), j)),
        TokenKind::Identifier(x) => Ok((Expression::Variable(x), j)),
        _ => Err(ParseFault::UnexpectedToken("number, string, or identifier"@, tok)),
    }
}

/// Reads `(("+" | "-") Primary)*` at `i` onto the left operand `acc`, which
/// makes sums and differences associate to the left.
pub open spec fn additive_rest(t: Seq<Token>, i: int, acc: Expression) -> Result<
    (Expression, int),
    ParseFault,
>
    decreases t.len() - i,
{
    if 0 <= i < t.len() && (t[i].kind is Plus || t[i].kind is Minus) {
        match primary_spec(t, i + 1) {
            Err(f) => Err(f),
            Ok((r, j)) => if j <= i || j > t.len() {
                Err(ParseFault::UnexpectedToken("number, string, or identifier"@, t[i]))
            } else if t[i].kind is Plus {
                additive_rest(t, j, Expression::Add(Box::new(acc), Box::new(r)))
            } else {
                additive_rest(t, j, Expression::Subtract(Box::new(acc), Box::new(r)))
            },
        }
    } else {
        Ok((acc, i))
    }
}

/// An expression read at `i`, and the index after it.
pub open spec fn expression_spec(t: Seq<Token>, i: int) -> Result<(Expression, int), ParseFault> {
    match primary_spec(t, i) {
        Err(f) => Err(f),
        Ok((e, j)) => additive_rest(t, j, e),
    }
}

/// A statement read at `i`, and the index after it.
pub open spec fn statement_spec(t: Seq<Token>, i: int) -> Result<(Statement, int), ParseFault> {
    match t[i].kind {
        TokenKind::Maybe => {
            let j = step(t, i + 1);
            let tok = t[j - 1];
            match tok.kind {
                TokenKind::Identifier(name) => if t[j].kind is Equals {
                    match expression_spec(t, j + 1) {
                        Err(f) => Err(f),
                        Ok((e, k)) => Ok((Statement::MaybeDeclaration(name, e), k)),
                    }
                } else {
                    Err(ParseFault::UnexpectedToken("'='"@, t[j]))
                },
                _ => Err(ParseFault::UnexpectedToken("identifier"@, tok)),
            }
        },
        TokenKind::Blah => match expression_spec(t, i + 1) {
            Err(f) => Err(f),
            Ok((e, k)) => Ok((Statement::BlahStatement(e), k)),
        },
        _ => Err(ParseFault::UnexpectedToken("'maybe' or 'blah'"@, t[i])),
    }
}

/// The statements read from `i` up to `Eof`, or the first fault.
pub open spec fn parse_from(t: Seq<Token>, i: int) -> Result<Seq<Statement>, ParseFault>
    decreases t.len() - i,
{
    if i < 0 || i >= t.len() || t[i].kind is Eof {
        Ok(Seq::empty())
    } else {
        match statement_spec(t, i) {
            Err(f) => Err(f),
            Ok((st, j)) => if j <= i || j > t.len() {
                Err(ParseFault::UnexpectedToken("'maybe' or 'blah'"@, t[i]))
            } else {
                match parse_from(t, j) {
                    Err(f) => Err(f),
                    Ok(rest) => Ok(seq![st] + rest),
                }
            },
        }
    }
}

/// A token sequence that a parser can read: it is not empty and ends with
/// `Eof`.
pub open spec fn ends_with_eof(t: Seq<Token>) -> bool {
    t.len() > 0 && t.last().kind is Eof
}

/// The two kinds are the same variant, whatever they carry.
pub open spec fn same_variant(a: TokenKind, b: TokenKind) -> bool {
    match (a, b) {
        (TokenKind::Blah, TokenKind::Blah) => true,
        (TokenKind::Maybe, TokenKind::Maybe) => true,
        (TokenKind::Number(_), TokenKind::Number(_)) => true,
        (TokenKind::StringLiteral(_), TokenKind::StringLiteral(_)) => true,
        (TokenKind::Identifier(_), TokenKind::Identifier(_)) => true,
        (TokenKind::Plus, TokenKind::Plus) => true,
        (TokenKind::Minus, TokenKind::Minus) => true,
        (TokenKind::Equals, TokenKind::Equals) => true,
        (TokenKind::Eof, TokenKind::Eof) => true,
        _ => false,
    }
}

fn is_same_variant(a: &TokenKind, b: &TokenKind) -> (r: bool)
    ensures
        r == same_variant(*a, *b),
{
    match (a, b) {
        (TokenKind::Blah, TokenKind::Blah) => true,
        (TokenKind::Maybe, TokenKind::Maybe) => true,
        (TokenKind::Number(_), TokenKind::Number(_)) => true,
        (TokenKind::StringLiteral(_), TokenKind::StringLiteral(_)) => true,
        (TokenKind::Identifier(_), TokenKind::Identifier(_)) => true,
        (TokenKind::Plus, TokenKind::Plus) => true,
        (TokenKind::Minus, TokenKind::Minus) => true,
        (TokenKind::Equals, TokenKind::Equals) => true,
        (TokenKind::Eof, TokenKind::Eof) => true,
        _ => false,
    }
}

impl TokenKind {
    /// A copy of this token kind.
    pub fn duplicate(&self) -> (r: TokenKind)
        ensures
            r == *self,
    {
        match self {
            TokenKind::Blah => TokenKind::Blah,
            TokenKind::Maybe => TokenKind::Maybe,
            TokenKind::Number(n) => TokenKind::Number(*n),
            TokenKind::StringLiteral(s) => TokenKind::StringLiteral(s.clone()),
            TokenKind::Identifier(s) => TokenKind::Identifier(s.clone()),
            TokenKind::Plus => TokenKind::Plus,
            TokenKind::Minus => TokenKind::Minus,
            TokenKind::Equals => TokenKind::Equals,
            TokenKind::Eof => TokenKind::Eof,
        }
    }
}

impl Token {
    /// A copy of this token.
    pub fn duplicate(&self) -> (r: Token)
        ensures
            r == *self,
    {
        Token { kind: self.kind.duplicate(), position: self.position, lexeme: self.lexeme.clone() }
    }
}

fn unexpected(expected: &str, found: &Token) -> (r: ParseError)
    ensures
        reports_parse_fault(r, ParseFault::UnexpectedToken(expected@, *found)),
{
    ParseError::UnexpectedToken { expected: String::from_str(expected), found: found.duplicate() }
}

/// Reads tokens into a program.
pub struct Parser {
    tokens: Vec<Token>,
    current: usize,
}

impl Parser {
    /// The token list ends with `Eof` and the index lies within it.
    pub closed spec fn wf(&self) -> bool {
        &&& ends_with_eof(self.tokens@)
        &&& self.current < self.tokens@.len()
    }

    /// The tokens being read.
    pub closed spec fn tokens(&self) -> Seq<Token> {
        self.tokens@
    }

    /// The index of the next token to read.
    pub closed spec fn index(&self) -> int {
        self.current as int
    }

    pub fn new(tokens: Vec<Token>) -> (r: Parser)
        requires
            ends_with_eof(tokens@),
        ensures
            r.wf(),
            r.tokens() == tokens@,
            r.index() == 0,
    {
        Parser { tokens, current: 0 }
    }

    /// Reads statements up to `Eof`.
    pub fn parse(&mut self) -> (r: Result<Program, ParseError>)
        requires
            old(self).wf(),
        ensures
            final(self).wf(),
            final(self).tokens() == old(self).tokens(),
            match (r, parse_from(old(self).tokens(), old(self).index())) {
                (Ok(p), Ok(m)) => p@ == m,
                (Err(e), Err(f)) => reports_parse_fault(e, f),
                _ => false,
            },
    {
        let ghost t = self.tokens@;
        let ghost whole = parse_from(t, self.current as int);
        let mut program: Vec<Statement> = Vec::new();
        while !self.is_at_end()
            invariant
                self.wf(),
                self.tokens@ == t,
                t == old(self).tokens@,
                whole == parse_from(old(self).tokens@, old(self).current as int),
                whole == match parse_from(t, self.current as int) {
                    Ok(rest) => Ok(program@ + rest),
                    Err(f) => Err(f),
                },
            decreases t.len() - self.current,
        {
            let ghost before = program@;
            let stmt = match self.parse_statement() {
                Ok(s) => s,
                Err(e) => return Err(e),
            };
            program.push(stmt);
            proof {
                if let Ok(r) = parse_from(t, self.current as int) {
                    assert(before + (seq![stmt] + r) =~= program@ + r);
                }
            }
        }
        assert(program@ + Seq::<Statement>::empty() =~= program@);
        Ok(program)
    }

    fn is_at_end(&self) -> (r: bool)
        requires
            self.wf(),
        ensures
            r == (self.tokens@[self.current as int].kind is Eof),
    {
        matches!(self.peek().kind, TokenKind::Eof)
    }

    fn peek(&self) -> (r: &Token)
        requires
            self.wf(),
        ensures
            *r == self.tokens@[self.current as int],
    {
        let last = self.tokens.len() - 1;
        &self.tokens[if self.current < last { self.current } else { last }]
    }

    fn advance(&mut self) -> (r: &Token)
        requires
            old(self).wf(),
            old(self).current > 0 || !(old(self).tokens@[old(self).current as int].kind is Eof),
        ensures
            final(self).wf(),
            final(self).tokens@ == old(self).tokens@,
            final(self).current == step(old(self).tokens@, old(self).current as int),
            *r == old(self).tokens@[final(self).current - 1],
    {
        let n = self.tokens.len();
        if !self.is_at_end() {
            assert(self.current + 1 < n);
            self.current = self.current + 1;
        }
        &self.tokens[self.current - 1]
    }

    fn parse_statement(&mut self) -> (r: Result<Statement, ParseError>)
        requires
            old(self).wf(),
            !(old(self).tokens@[old(self).current as int].kind is Eof),
        ensures
            final(self).wf(),
            final(self).tokens@ == old(self).tokens@,
            match (r, statement_spec(old(self).tokens@, old(self).current as int)) {
                (Ok(s), Ok((m, j))) => s == m && final(self).current == j && j > old(self).current,
                (Err(e), Err(f)) => reports_parse_fault(e, f),
                _ => false,
            },
    {
        match &self.peek().kind {
            TokenKind::Maybe => self.parse_maybe_declaration(),
            TokenKind::Blah => self.parse_blah_statement(),
            _ => Err(unexpected("'maybe' or 'blah'", self.peek())),
        }
    }

    fn check(&self, kind: &TokenKind) -> (r: bool)
        requires
            self.wf(),
        ensures
            r == (!(self.tokens@[self.current as int].kind is Eof) && same_variant(
                self.tokens@[self.current as int].kind,
                *kind,
            )),
    {
        if self.is_at_end() {
            return false;
        }
        is_same_variant(&self.peek().kind, kind)
    }

    fn consume(&mut self, kind: TokenKind, message: &str) -> (r: Result<(), ParseError>)
        requires
            old(self).wf(),
        ensures
            final(self).wf(),
            final(self).tokens@ == old(self).tokens@,
            ({
                let t = old(self).tokens@[old(self).current as int];
                if !(t.kind is Eof) && same_variant(t.kind, kind) {
                    r is Ok && final(self).current == old(self).current + 1
                } else {
                    r matches Err(e) && reports_parse_fault(e, ParseFault::UnexpectedToken(message@, t))
                        && final(self).current == old(self).current
                }
            }),
    {
        if self.check(&kind) {
            self.advance();
            Ok(())
        } else {
            Err(unexpected(message, self.peek()))
        }
    }

    fn parse_maybe_declaration(&mut self) -> (r: Result<Statement, ParseError>)
        requires
            old(self).wf(),
            old(self).tokens@[old(self).current as int].kind is Maybe,
        ensures
            final(self).wf(),
            final(self).tokens@ == old(self).tokens@,
            match (r, statement_spec(old(self).tokens@, old(self).current as int)) {
                (Ok(s), Ok((m, j))) => s == m && final(self).current == j && j > old(self).current,
                (Err(e), Err(f)) => reports_parse_fault(e, f),
                _ => false,
            },
    {
        match self.consume(TokenKind::Maybe, "'maybe'") {
            Ok(()) => {},
            Err(e) => return Err(e),
        }
        let name = match &self.advance().kind {
            TokenKind::Identifier(name) => name.clone(),
            _ => return Err(unexpected("identifier", &self.tokens[self.current - 1])),
        };
        match self.consume(TokenKind::Equals, "'='") {
            Ok(()) => {},
            Err(e) => return Err(e),
        }
        let expr = match self.parse_expression() {
            Ok(e) => e,
            Err(e) => return Err(e),
        };
        Ok(Statement::MaybeDeclaration(name, expr))
    }

    fn parse_blah_statement(&mut self) -> (r: Result<Statement, ParseError>)
        requires
            old(self).wf(),
            old(self).tokens@[old(self).current as int].kind is Blah,
        ensures
            final(self).wf(),
            final(self).tokens@ == old(self).tokens@,
            match (r, statement_spec(old(self).tokens@, old(self).current as int)) {
                (Ok(s), Ok((m, j))) => s == m && final(self).current == j && j > old(self).current,
                (Err(e), Err(f)) => reports_parse_fault(e, f),
                _ => false,
            },
    {
        match self.consume(TokenKind::Blah, "'blah'") {
            Ok(()) => {},
            Err(e) => return Err(e),
        }
        let expr = match self.parse_expression() {
            Ok(e) => e,
            Err(e) => return Err(e),
        };
        Ok(Statement::BlahStatement(expr))
    }

    fn parse_expression(&mut self) -> (r: Result<Expression, ParseError>)
        requires
            old(self).wf(),
            old(self).current > 0,
        ensures
            final(self).wf(),
            final(self).tokens@ == old(self).tokens@,
            final(self).current >= old(self).current,
            match (r, expression_spec(old(self).tokens@, old(self).current as int)) {
                (Ok(e), Ok((m, j))) => e == m && final(self).current == j,
                (Err(e), Err(f)) => reports_parse_fault(e, f),
                _ => false,
            },
    {
        self.parse_additive()
    }

    fn parse_additive(&mut self) -> (r: Result<Expression, ParseError>)
        requires
            old(self).wf(),
            old(self).current > 0,
        ensures
            final(self).wf(),
            final(self).tokens@ == old(self).tokens@,
            final(self).current >= old(self).current,
            match (r, expression_spec(old(self).tokens@, old(self).current as int)) {
                (Ok(e), Ok((m, j))) => e == m && final(self).current == j,
                (Err(e), Err(f)) => reports_parse_fault(e, f),
                _ => false,
            },
    {
        let ghost t = self.tokens@;
        let mut expr = match self.parse_primary() {
            Ok(e) => e,
            Err(e) => return Err(e),
        };
        while matches!(self.peek().kind, TokenKind::Plus | TokenKind::Minus)
            invariant
                self.wf(),
                self.tokens@ == t,
                t == old(self).tokens@,
                self.current >= old(self).current,
                expression_spec(t, old(self).current as int) == additive_rest(
                    t,
                    self.current as int,
                    expr,
                ),
            decreases t.len() - self.current,
        {
            let is_plus = matches!(self.peek().kind, TokenKind::Plus);
            self.advance();
            let right = match self.parse_primary() {
                Ok(e) => e,
                Err(e) => return Err(e),
            };
            expr = if is_plus {
                Expression::Add(Box::new(expr), Box::new(right))
            } else {
                Expression::Subtract(Box::new(expr), Box::new(right))
            };
        }
        Ok(expr)
    }

    fn parse_primary(&mut self) -> (r: Result<Expression, ParseError>)
        requires
            old(self).wf(),
            old(self).current > 0,
        ensures
            final(self).wf(),
            final(self).tokens@ == old(self).tokens@,
            final(self).current >= old(self).current,
            match (r, primary_spec(old(self).tokens@, old(self).current as int)) {
                (Ok(e), Ok((m, j))) => e == m && final(self).current == j,
                (Err(e), Err(f)) => reports_parse_fault(e, f),
                _ => false,
            },
    {
        match &self.advance().kind {
            TokenKind::Number(n) => Ok(Expression::Number(*n)),
            TokenKind::StringLiteral(s) => Ok(Expression::StringLiteral(s.clone())),
            TokenKind::Identifier(name) => Ok(Expression::Variable(name.clone())),
            _ => Err(unexpected("number, string, or identifier", &self.tokens[self.current - 1])),
        }
    }
}

// ---------------------------------------------------------------------------
// Code generation
// ---------------------------------------------------------------------------

/// `n` levels of four-space indentation.
pub open spec fn indent_text(n: nat) -> Seq<char>
    decreases n,
{
    if n == 0 {
        Seq::empty()
    } else {
        indent_text((n - 1) as nat) + "    "@
    }
}

/// The C expression for `e`: a variable of a `Maybe` type reads as 0 while
/// it is null.
pub open spec fn expr_code(e: Expression, env: Map<Seq<char>, Type>) -> Seq<char>
    decreases e,
{
    match e {
        Expression::Number(n) => int_numeral(n as int),
        Expression::StringLiteral(s) => seq!['"'] + escape_text(s@) + seq!['"'],
        Expression::Variable(x) => if env.contains_key(x@) && env[x@] is Maybe {
            "("@ + x@ + "_is_null ? 0 : "@ + x@ + ")"@
        } else {
            x@
        },
        Expression::Add(a, b) => "("@ + expr_code(*a, env) + " + "@ + expr_code(*b, env) + ")"@,
        Expression::Subtract(a, b) => "("@ + expr_code(*a, env) + " - "@ + expr_code(*b, env)
            + ")"@,
    }
}

/// One line at indentation `level`.
pub open spec fn line(level: nat, body: Seq<char>) -> Seq<char> {
    indent_text(level) + body
}

/// `prefix` followed by the C code for a statement at indentation `level`:
/// a declaration assigns its value or marks the variable null with even
/// odds, and a print uses `%s` for strings and `%d` otherwise.
pub open spec fn statement_after(
    prefix: Seq<char>,
    st: Statement,
    env: Map<Seq<char>, Type>,
    level: nat,
) -> Seq<char> {
    match st {
        Statement::MaybeDeclaration(name, e) => {
            let x = name@;
            prefix + line(level, "// Maybe declaration: "@ + x + "\n"@) + line(
                level,
                "int "@ + x + " = 0;\n"@,
            ) + line(level, "bool "@ + x + "_is_null = false;\n"@) + line(
                level,
                "if (rand() % 2 == 0) {\n"@,
            ) + line(level + 1, x + " = "@ + expr_code(e, env) + ";\n"@) + line(
                level + 1,
                "printf(\"maybe "@ + x + " = %d\\n\", "@ + x + ");\n"@,
            ) + line(level, "} else {\n"@) + line(level + 1, x + "_is_null = true;\n"@) + line(
                level + 1,
                "printf(\"maybe "@ + x + " = null\\n\");\n"@,
            ) + line(level, "}\n"@)
        },
        Statement::BlahStatement(e) => prefix + line(level, "// Blah statement\n"@) + line(
            level,
            (if type_spec(e, env) == Ok::<Type, TypeFault>(Type::String) {
                "printf(\"%s\\n\", "@
            } else {
                "printf(\"%d\\n\", "@
            }) + expr_code(e, env) + ");\n"@,
        ),
    }
}

/// The text before the statements of a generated program.
pub open spec fn header_text() -> Seq<char> {
    "// Generated by Proven Mist Compiler\n"@
        + "// THEOREM: This C code has equivalent semantics to the source\n"@
        + "// PROOF: By structural induction on the AST\n\n"@ + "#include <stdio.h>\n"@
        + "#include <stdlib.h>\n"@ + "#include <time.h>\n"@ + "#include <stdbool.h>\n\n"@
        + "int main(void) {\n"@ + line(1, "// Initialize RNG for stochastic semantics\n"@) + line(
        1,
        "srand(time(NULL));\n\n"@,
    )
}

/// The header followed by the code of the statements, each followed by an
/// empty line.
pub open spec fn program_body(p: Seq<Statement>, env: Map<Seq<char>, Type>) -> Seq<char>
    decreases p.len(),
{
    if p.len() == 0 {
        header_text()
    } else {
        statement_after(program_body(p.drop_last(), env), p.last(), env, 1) + "\n"@
    }
}

/// The whole C program generated for `p` with the variable types `env`.
pub open spec fn program_text(p: Seq<Statement>, env: Map<Seq<char>, Type>) -> Seq<char> {
    program_body(p, env) + line(1, "return 0;\n"@) + "}\n"@
}

/// Every print statement of `p` type checks in `env`.
pub open spec fn prints_typed(p: Seq<Statement>, env: Map<Seq<char>, Type>) -> bool {
    forall|i: int|
        0 <= i < p.len() ==> match #[trigger] p[i] {
            Statement::BlahStatement(e) => type_spec(e, env) is Ok,
            _ => true,
        }
}

/// Generates C code from a type checked program.
pub struct CodeGenerator {
    indent_level: usize,
}

impl CodeGenerator {
    pub fn new() -> (r: CodeGenerator)
        ensures
            r.level() == 0,
    {
        CodeGenerator { indent_level: 0 }
    }

    /// The current indentation level.
    pub closed spec fn level(&self) -> nat {
        self.indent_level as nat
    }

    /// The C program for `program`; every print statement must type check in
    /// `type_env`.
    pub fn generate_program(&mut self, program: &Program, type_env: &TypeEnvironment) -> (r: String)
        requires
            type_env.wf(),
            prints_typed(program@, type_env@),
        ensures
            r@ == program_text(program@, type_env@),
            final(self).level() == 1,
    {
        let mut output = String::new();
        push_str(&mut output, "// Generated by Proven Mist Compiler\n");
        push_str(&mut output, "// THEOREM: This C code has equivalent semantics to the source\n");
        push_str(&mut output, "// PROOF: By structural induction on the AST\n\n");
        push_str(&mut output, "#include <stdio.h>\n");
        push_str(&mut output, "#include <stdlib.h>\n");
        push_str(&mut output, "#include <time.h>\n");
        push_str(&mut output, "#include <stdbool.h>\n\n");
        push_str(&mut output, "int main(void) {\n");
        self.indent_level = 1;
        self.indent(&mut output, "// Initialize RNG for stochastic semantics\n");
        self.indent(&mut output, "srand(time(NULL));\n\n");
        assert(program@.subrange(0, 0) =~= Seq::<Statement>::empty());
        let mut i: usize = 0;
        while i < program.len()
            invariant
                i <= program@.len(),
                self.indent_level == 1,
                type_env.wf(),
                prints_typed(program@, type_env@),
                output@ == program_body(program@.subrange(0, i as int), type_env@),
            decreases program@.len() - i,
        {
            proof {
                let q = program@.subrange(0, i + 1);
                assert(q.drop_last() =~= program@.subrange(0, i as int));
            }
            self.generate_statement(&mut output, &program[i], type_env);
            push_str(&mut output, "\n");
            i = i + 1;
        }
        assert(program@.subrange(0, i as int) =~= program@);
        self.indent(&mut output, "return 0;\n");
        push_str(&mut output, "}\n");
        output
    }

    /// Appends `s` at the current indentation.
    fn indent(&self, out: &mut String, s: &str)
        ensures
            final(out)@ == old(out)@ + line(self.indent_level as nat, s@),
    {
        let mut k: usize = 0;
        while k < self.indent_level
            invariant
                k <= self.indent_level,
                out@ == old(out)@ + indent_text(k as nat),
            decreases self.indent_level - k,
        {
            push_str(out, "    ");
            k = k + 1;
        }
        push_str(out, s);
        assert(out@ =~= old(out)@ + line(self.indent_level as nat, s@));
    }

    fn generate_statement(&mut self, out: &mut String, stmt: &Statement, type_env: &TypeEnvironment)
        requires
            type_env.wf(),
            old(self).indent_level < usize::MAX,
            match *stmt {
                Statement::BlahStatement(e) => type_spec(e, type_env@) is Ok,
                _ => true,
            },
        ensures
            final(self).indent_level == old(self).indent_level,
            final(out)@ == statement_after(
                old(out)@,
                *stmt,
                type_env@,
                old(self).indent_level as nat,
            ),
    {
        match stmt {
            Statement::MaybeDeclaration(name, expr) => {
                let x = name.as_str();
                self.indent3(out, "// Maybe declaration: ", x, "\n");
                self.indent3(out, "int ", x, " = 0;\n");
                self.indent3(out, "bool ", x, "_is_null = false;\n");
                self.indent(out, "if (rand() % 2 == 0) {\n");
                self.indent_level = self.indent_level + 1;
                let code = self.generate_expression(expr, type_env);
                self.indent4(out, x, " = ", code.as_str(), ";\n");
                self.indent5(out, "printf(\"maybe ", x, " = %d\\n\", ", x, ");\n");
                self.indent_level = self.indent_level - 1;
                self.indent(out, "} else {\n");
                self.indent_level = self.indent_level + 1;
                self.indent2(out, x, "_is_null = true;\n");
                self.indent3(out, "printf(\"maybe ", x, " = null\\n\");\n");
                self.indent_level = self.indent_level - 1;
                self.indent(out, "}\n");
            },
            Statement::BlahStatement(expr) => {
                self.indent(out, "// Blah statement\n");
                let is_string = match type_check_expr(expr, type_env) {
                    Ok(Type::String) => true,
                    _ => false,
                };
                let code = self.generate_expression(expr, type_env);
                let format = if is_string {
                    "printf(\"%s\\n\", "
                } else {
                    "printf(\"%d\\n\", "
                };
                self.indent3(out, format, code.as_str(), ");\n");
            },
        }
    }

    fn indent2(&self, out: &mut String, a: &str, b: &str)
        ensures
            final(out)@ == old(out)@ + line(self.indent_level as nat, a@ + b@),
    {
        let mut t = String::new();
        push_str(&mut t, a);
        push_str(&mut t, b);
        assert(t@ =~= a@ + b@);
        self.indent(out, t.as_str());
    }

    fn indent3(&self, out: &mut String, a: &str, b: &str, c: &str)
        ensures
            final(out)@ == old(out)@ + line(self.indent_level as nat, a@ + b@ + c@),
    {
        let mut t = String::new();
        push_str(&mut t, a);
        push_str(&mut t, b);
        push_str(&mut t, c);
        assert(t@ =~= a@ + b@ + c@);
        self.indent(out, t.as_str());
    }

    fn indent4(&self, out: &mut String, a: &str, b: &str, c: &str, d: &str)
        ensures
            final(out)@ == old(out)@ + line(self.indent_level as nat, a@ + b@ + c@ + d@),
    {
        let mut t = String::new();
        push_str(&mut t, a);
        push_str(&mut t, b);
        push_str(&mut t, c);
        push_str(&mut t, d);
        assert(t@ =~= a@ + b@ + c@ + d@);
        self.indent(out, t.as_str());
    }

    fn indent5(&self, out: &mut String, a: &str, b: &str, c: &str, d: &str, e: &str)
        ensures
            final(out)@ == old(out)@ + line(self.indent_level as nat, a@ + b@ + c@ + d@ + e@),
    {
        let mut t = String::new();
        push_str(&mut t, a);
        push_str(&mut t, b);
        push_str(&mut t, c);
        push_str(&mut t, d);
        push_str(&mut t, e);
        assert(t@ =~= a@ + b@ + c@ + d@ + e@);
        self.indent(out, t.as_str());
    }

    fn generate_expression(&self, expr: &Expression, type_env: &TypeEnvironment) -> (r: String)
        requires
            type_env.wf(),
        ensures
            r@ == expr_code(*expr, type_env@),
        decreases expr,
    {
        match expr {
            Expression::Number(n) => numeral(*n),
            Expression::StringLiteral(s) => {
                let mut t = String::new();
                push_char(&mut t, '"');
                push_escaped(&mut t, s);
                push_char(&mut t, '"');
                t
            },
            Expression::Variable(name) => {
                let nullable = match type_env.get(name) {
                    Some(Type::Maybe(_)) => true,
                    _ => false,
                };
                if nullable {
                    let mut t = String::new();
                    push_str(&mut t, "(");
                    push_str(&mut t, name.as_str());
                    push_str(&mut t, "_is_null ? 0 : ");
                    push_str(&mut t, name.as_str());
                    push_str(&mut t, ")");
                    t
                } else {
                    name.clone()
                }
            },
            Expression::Add(a, b) => {
                let mut t = String::new();
                push_str(&mut t, "(");
                let ca = self.generate_expression(a, type_env);
                push_str(&mut t, ca.as_str());
                push_str(&mut t, " + ");
                let cb = self.generate_expression(b, type_env);
                push_str(&mut t, cb.as_str());
                push_str(&mut t, ")");
                t
            },
            Expression::Subtract(a, b) => {
                let mut t = String::new();
                push_str(&mut t, "(");
                let ca = self.generate_expression(a, type_env);
                push_str(&mut t, ca.as_str());
                push_str(&mut t, " - ");
                let cb = self.generate_expression(b, type_env);
                push_str(&mut t, cb.as_str());
                push_str(&mut t, ")");
                t
            },
        }
    }
}

// ---------------------------------------------------------------------------
// The compiler
// ---------------------------------------------------------------------------

/// An error of any phase of compilation.
#[derive(Debug)]
pub enum CompilerError {
    LexError(LexError),
    ParseError(ParseError),
    TypeError(TypeError),
}

impl From<LexError> for CompilerError {
    fn from(e: LexError) -> (r: Self)
        ensures
            r == CompilerError::LexError(e),
    {
        CompilerError::LexError(e)
    }
}

impl vstd::std_specs::convert::FromSpecImpl<LexError> for CompilerError {
    open spec fn obeys_from_spec() -> bool {
        true
    }

    open spec fn from_spec(e: LexError) -> Self {
        CompilerError::LexError(e)
    }
}

impl From<ParseError> for CompilerError {
    fn from(e: ParseError) -> (r: Self)
        ensures
            r == CompilerError::ParseError(e),
    {
        CompilerError::ParseError(e)
    }
}

impl vstd::std_specs::convert::FromSpecImpl<ParseError> for CompilerError {
    open spec fn obeys_from_spec() -> bool {
        true
    }

    open spec fn from_spec(e: ParseError) -> Self {
        CompilerError::ParseError(e)
    }
}

impl From<TypeError> for CompilerError {
    fn from(e: TypeError) -> (r: Self)
        ensures
            r == CompilerError::TypeError(e),
    {
        CompilerError::TypeError(e)
    }
}

impl vstd::std_specs::convert::FromSpecImpl<TypeError> for CompilerError {
    open spec fn obeys_from_spec() -> bool {
        true
    }

    open spec fn from_spec(e: TypeError) -> Self {
        CompilerError::TypeError(e)
    }
}

/// `e` reports that some print statement of `p` fails to type check in the
/// final environment `env`.
pub open spec fn reports_print_fault(p: Seq<Statement>, env: Map<Seq<char>, Type>, e: TypeError) -> bool {
    exists|i: int|
        0 <= i < p.len() && match #[trigger] p[i] {
            Statement::BlahStatement(x) => match type_spec(x, env) {
                Err(f) => reports_type_fault(e, f),
                Ok(_) => false,
            },
            _ => false,
        }
}

/// `r` is what compiling the tokens `ts` gives: the first error of parsing or
/// type checking, an error when a print no longer type checks under the
/// final types of the variables, or else the generated program.
pub open spec fn compiled_from(ts: Seq<Token>, r: Result<String, CompilerError>) -> bool {
    match parse_from(ts, 0) {
        Err(f) => r matches Err(CompilerError::ParseError(e)) && reports_parse_fault(e, f),
        Ok(p) => match program_type_spec(p) {
            Err(f) => r matches Err(CompilerError::TypeError(e)) && reports_type_fault(e, f),
            Ok(env) => if prints_typed(p, env) {
                r matches Ok(code) && code@ == program_text(p, env)
            } else {
                r matches Err(CompilerError::TypeError(e)) && reports_print_fault(p, env, e)
            },
        },
    }
}

/// What compiling `source` gives.
pub open spec fn compile_spec(source: Seq<char>, r: Result<String, CompilerError>) -> bool {
    match lex_spec(source) {
        Err(f) => r matches Err(CompilerError::LexError(e)) && reports_lex_fault(e, f),
        Ok(m) => exists|ts: Seq<Token>| tokens_model(ts) == m && compiled_from(ts, r),
    }
}

/// The tokens of a successful lexing end with `Eof`.
pub proof fn lemma_lex_ends_with_eof(s: Seq<char>, i: int, p: Position)
    ensures
        lex_from(s, i, p) matches Ok(m) ==> m.len() > 0 && m.last().kind is Eof,
    decreases s.len() - i,
{
    let j = skip_end(s, i, false);
    let pj = pos_over(s, i, j, p);
    if j < i || j >= s.len() {
    } else {
        if let Ok((t, k)) = lex_token(s, j, pj) {
            if k > j && k <= s.len() {
                lemma_lex_ends_with_eof(s, k, pos_over(s, j, k, pj));
                if let Ok(rest) = lex_from(s, k, pos_over(s, j, k, pj)) {
                    assert((seq![t] + rest).last() == rest.last());
                }
            }
        }
    }
}

fn check_prints(program: &Program, env: &TypeEnvironment) -> (r: Result<(), TypeError>)
    requires
        env.wf(),
    ensures
        r is Ok <==> prints_typed(program@, env@),
        r matches Err(e) ==> reports_print_fault(program@, env@, e),
{
    let mut i: usize = 0;
    while i < program.len()
        invariant
            i <= program@.len(),
            env.wf(),
            forall|j: int|
                0 <= j < i ==> match #[trigger] program@[j] {
                    Statement::BlahStatement(e) => type_spec(e, env@) is Ok,
                    _ => true,
                },
        decreases program@.len() - i,
    {
        if let Statement::BlahStatement(e) = &program[i] {
            if let Err(err) = type_check_expr(e, env) {
                return Err(err);
            }
        }
        i = i + 1;
    }
    Ok(())
}

/// Compiles Mist source text to a C program.
pub fn compile(source: &str) -> (r: Result<String, CompilerError>)
    requires
        source@.len() < usize::MAX,
    ensures
        compile_spec(source@, r),
{
    let mut lexer = Lexer::new(source);
    let tokens = match lexer.tokenize() {
        Ok(t) => t,
        Err(e) => return Err(CompilerError::from(e)),
    };
    proof {
        lemma_lex_ends_with_eof(source@, 0, Position { line: 1, column: 1 });
        assert(tokens_model(tokens@).last() == tokens@.last()@);
    }
    let ghost ts = tokens@;
    let mut parser = Parser::new(tokens);
    let program = match parser.parse() {
        Ok(p) => p,
        Err(e) => return Err(CompilerError::from(e)),
    };
    let type_env = match type_check_program(&program) {
        Ok(env) => env,
        Err(e) => return Err(CompilerError::from(e)),
    };
    match check_prints(&program, &type_env) {
        Ok(()) => {},
        Err(e) => return Err(CompilerError::from(e)),
    }
    let mut generator = CodeGenerator::new();
    let c_code = generator.generate_program(&program, &type_env);
    assert(compiled_from(ts, Ok::<String, CompilerError>(c_code)));
    Ok(c_code)
}

} // verus!
