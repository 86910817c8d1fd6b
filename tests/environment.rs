use lox::environment::Environment;
use lox::evaluate::{check_arity, is_truthy, short_circuit, RuntimeError, Value};
use lox::lexer::{return_tokens, Token, TokenType};

fn ident(name: &str) -> Token {
    return_tokens(name).ok().unwrap().remove(0)
}

fn number(v: &Value) -> u64 {
    match v {
        Value::Number(n) => *n,
        _ => panic!("not a number"),
    }
}

#[test]
fn define_then_get() {
    let mut env = Environment::new();
    env.define(0, "x".to_string(), Value::Number(1));
    assert_eq!(number(&env.get(0, &ident("x")).ok().unwrap()), 1);
}

#[test]
fn inner_scope_shadows_and_outer_survives() {
    let mut env = Environment::new();
    env.define(0, "a".to_string(), Value::Number(1));
    let inner = env.from_enclosing(0);
    env.define(inner, "a".to_string(), Value::Number(2));
    assert_eq!(number(&env.get(inner, &ident("a")).ok().unwrap()), 2);
    assert_eq!(number(&env.get(0, &ident("a")).ok().unwrap()), 1);
}

#[test]
fn assign_writes_nearest_defining_scope() {
    let mut env = Environment::new();
    env.define(0, "a".to_string(), Value::Number(1));
    let inner = env.from_enclosing(0);
    assert!(env.assign(inner, &ident("a"), Value::Number(9)).is_ok());
    assert_eq!(number(&env.get(0, &ident("a")).ok().unwrap()), 9);
    assert_eq!(env.scopes[inner].values.len(), 0);
}

#[test]
fn redefinition_in_same_scope_replaces() {
    let mut env = Environment::new();
    env.define(0, "a".to_string(), Value::Number(1));
    env.define(0, "a".to_string(), Value::Number(3));
    assert_eq!(env.scopes[0].values.len(), 1);
    assert_eq!(number(&env.get(0, &ident("a")).ok().unwrap()), 3);
}

#[test]
fn child_scope_reads_current_outer_value() {
    let mut env = Environment::new();
    let declared_in = env.from_enclosing(0);
    env.define(declared_in, "y".to_string(), Value::Number(1));
    env.assign(declared_in, &ident("y"), Value::Number(5)).ok().unwrap();
    let call = env.from_enclosing(declared_in);
    env.define(call, "p".to_string(), Value::Nil);
    assert_eq!(number(&env.get(call, &ident("y")).ok().unwrap()), 5);
}

#[test]
fn missing_name_errors() {
    let mut env = Environment::new();
    let name = ident("ghost");
    match env.get(0, &name) {
        Err(RuntimeError::Error { message, line, .. }) => {
            assert_eq!(message, "Undefined variable 'ghost'.");
            assert_eq!(line, 1);
        }
        _ => panic!("expected an error"),
    }
    assert!(env.assign(0, &name, Value::Nil).is_err());
    assert_eq!(env.scopes[0].values.len(), 0);
}

#[test]
fn arity_check_fires_only_on_mismatch() {
    let paren = return_tokens(")").ok().unwrap().remove(0);
    assert_eq!(paren.token_type, TokenType::RIGHT_PAREN);
    assert!(check_arity(2, 2, &paren).is_ok());
    assert!(check_arity(0, 0, &paren).is_ok());
    match check_arity(3, 1, &paren) {
        Err(RuntimeError::Error { message, .. }) => assert_eq!(message, "Expected 3 arguments but got 1."),
        _ => panic!("expected an arity error"),
    }
}

#[test]
fn short_circuit_decisions() {
    assert!(matches!(short_circuit(TokenType::OR, Value::Boolean(true)), Some(Value::Boolean(true))));
    assert!(short_circuit(TokenType::OR, Value::Nil).is_none());
    assert!(matches!(short_circuit(TokenType::AND, Value::Nil), Some(Value::Nil)));
    assert!(short_circuit(TokenType::AND, Value::Number(0)).is_none());
    assert!(is_truthy(&Value::String(String::new())));
    assert!(!is_truthy(&Value::Boolean(false)));
}
