//! Checks of the conditions that each phase of the compiler establishes.

use vstd::prelude::*;
use crate::mist::{Program, Statement, Token, Type, TypeEnvironment, ends_with_eof};
use crate::text::{contains_text, count_of, has_substring, count_char};

verus! {

/// The lexer's output ends with `Eof`.
pub fn vc_lexer_validity(tokens: &[Token]) -> (r: bool)
    ensures
        r == ends_with_eof(tokens@),
{
    if tokens.len() == 0 {
        return false;
    }
    matches!(tokens[tokens.len() - 1].kind, crate::mist::TokenKind::Eof)
}

/// Every declaration of the program names a variable.
pub open spec fn names_nonempty(p: Seq<Statement>) -> bool {
    forall|i: int|
        0 <= i < p.len() ==> match #[trigger] p[i] {
            Statement::MaybeDeclaration(name, _) => name@.len() > 0,
            _ => true,
        }
}

/// The parser's output declares only named variables.
pub fn vc_parser_wellformed(program: &Program) -> (r: bool)
    ensures
        r == names_nonempty(program@),
{
    let mut i: usize = 0;
    while i < program.len()
        invariant
            i <= program@.len(),
            forall|j: int|
                0 <= j < i ==> match #[trigger] program@[j] {
                    Statement::MaybeDeclaration(name, _) => name@.len() > 0,
                    _ => true,
                },
        decreases program@.len() - i,
    {
        if let Statement::MaybeDeclaration(name, _) = &program[i] {
            if name.as_str().unicode_len() == 0 {
                return false;
            }
        }
        i = i + 1;
    }
    true
}

/// A variable type that the type checker can give: never `Maybe(String)`.
pub open spec fn consistent_type(t: Type) -> bool {
    match t {
        Type::Maybe(inner) => *inner != Type::String,
        _ => true,
    }
}

/// No variable of the environment has the type `Maybe(String)`.
pub fn vc_type_env_consistent(env: &TypeEnvironment) -> (r: bool)
    requires
        env.wf(),
    ensures
        r == forall|k: Seq<char>| env@.contains_key(k) ==> consistent_type(#[trigger] env@[k]),
{
    let mut i: usize = 0;
    while i < env.len()
        invariant
            i <= env.size(),
            env.wf(),
            forall|j: int| 0 <= j < i ==> consistent_type(#[trigger] env.value_at(j)),
        decreases env.size() - i,
    {
        let ok = match env.value(i) {
            Type::Maybe(inner) => !matches!(**inner, Type::String),
            _ => true,
        };
        if !ok {
            proof {
                env.lemma_entry(i as int);
            }
            return false;
        }
        i = i + 1;
    }
    proof {
        assert forall|k: Seq<char>| env@.contains_key(k) implies consistent_type(
            #[trigger] env@[k],
        ) by {
            env.lemma_key(k);
            let j = choose|j: int| 0 <= j < env.size() && env.key_at(j) == k;
            env.lemma_entry(j);
        }
    }
    true
}

/// The generated code has a `main` that returns 0 and balanced braces.
pub fn vc_valid_c_code(code: &str) -> (r: bool)
    ensures
        r == (has_substring(code@, "int main"@) && has_substring(code@, "return 0;"@)
            && count_char(code@, '{') == count_char(code@, '}')),
{
    contains_text(code, "int main") && contains_text(code, "return 0;") && count_of(code, '{')
        == count_of(code, '}')
}

} // verus!
