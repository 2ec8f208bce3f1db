use std::sync::Arc;

use cadlisp::env::{Env, Model};
use cadlisp::eval::{default_env, eval, eval_exprs};
use cadlisp::expr::Expr;
use cadlisp::parser::{parse_expr, parse_file};
use cadlisp::value::Value;

fn fresh_env() -> Env {
    default_env()
}

#[test]
fn test_math() {
    let mut env = fresh_env();
    let expr = parse_expr("(+ 1 2 (+ 1 3))").unwrap();
    assert_eq!(
        eval(&Arc::new(expr), &mut env, 0, 100000),
        Ok(Arc::new(Expr::integer(7)))
    );
}

#[test]
fn test_lambda() {
    let mut env = fresh_env();
    let expr = parse_expr("((lambda (a b) (+ a (- b 0))) 1 2)").unwrap();
    let result = eval(&Arc::new(expr), &mut env, 0, 100000);
    assert_eq!(result, Ok(Arc::new(Expr::integer(3))));
}

#[test]
fn test_define() {
    let mut env = fresh_env();
    let exprs = parse_file("(define a 1) a").unwrap();
    let result = eval_exprs(exprs, &mut env, 0, 100000);
    assert_eq!(result.map(|r| r.value), Ok(Value::Integer(1)));
}

#[test]
fn test_define_lambda1() {
    let mut env = fresh_env();
    let exprs = parse_file("(define add (lambda(a b) (+ a b))) (add 1 2)").unwrap();
    let result = eval_exprs(exprs, &mut env, 0, 100000);
    assert_eq!(result.map(|r| r.value), Ok(Value::Integer(3)));
}

#[test]
fn test_define_lambda2() {
    let mut env = fresh_env();
    let exprs = parse_file("(define (add a b) (+ a b)) (add 1 2)").unwrap();
    let result = eval_exprs(exprs, &mut env, 0, 100000);
    assert_eq!(result.map(|r| r.value), Ok(Value::Integer(3)));
}

#[test]
fn test_define_lambda3() {
    let mut env = fresh_env();
    let exprs = parse_file("(define (id a) a) (id 1)").unwrap();
    assert_eq!(
        eval_exprs(exprs, &mut env, 0, 100000).map(|r| r.value),
        Ok(Value::Integer(1))
    );
}

#[test]
fn test_if() {
    let mut env = fresh_env();
    let exprs = parse_file("(if (< 1 2) 2 3)").unwrap();
    let result = eval_exprs(exprs, &mut env, 0, 100000);
    assert_eq!(result.map(|r| r.value), Ok(Value::Integer(2)));
}

#[test]
fn test_if2() {
    let mut env = fresh_env();
    let exprs = parse_file("(if (< 2 1) 2 3)").unwrap();
    let result = eval_exprs(exprs, &mut env, 0, 100000);
    assert_eq!(result.map(|r| r.value), Ok(Value::Integer(3)));
}

#[test]
fn test_if3() {
    let mut env = fresh_env();
    let exprs = parse_file("(if (< -3 1) 2 3)").unwrap();
    assert_eq!(
        eval_exprs(exprs, &mut env, 0, 100000).map(|r| r.value),
        Ok(Value::Integer(2))
    );
}

#[test]
fn test_let() {
    let mut env = fresh_env();
    let exprs = parse_file("(let ((a 1) (b 2)) (+ a b))").unwrap();
    assert_eq!(
        eval_exprs(exprs, &mut env, 0, 100000).map(|r| r.value),
        Ok(Value::Integer(3))
    );
}

#[test]
fn test_let2() {
    let mut env = fresh_env();
    let exprs = parse_file("(let ((a 1)) (let ((b (+ a 1)))  (+ b a)))").unwrap();
    assert_eq!(
        eval_exprs(exprs, &mut env, 0, 100000).map(|r| r.value),
        Ok(Value::Integer(3))
    );
}

#[test]
fn test_let_3() {
    let mut env = fresh_env();
    // sequential semantics: later bindings see earlier ones
    let exprs = parse_file("(let ((a 1) (b (+ a 1))) (+ a b))").unwrap();
    assert_eq!(
        eval_exprs(exprs, &mut env, 0, 100000).map(|r| r.value),
        Ok(Value::Integer(3))
    );
}

#[test]
fn test_let_4() {
    let mut env = fresh_env();
    let exprs = parse_file("(let ((a 1)) (let ((a 0)) a))").unwrap();
    assert_eq!(
        eval_exprs(exprs, &mut env, 0, 100000).map(|r| r.value),
        Ok(Value::Integer(0))
    );
}

#[test]
fn test_let_5() {
    let mut env = fresh_env();
    let exprs = parse_file("(let ((a 0)) 1) a").unwrap();
    assert!(matches!(
        eval_exprs(exprs, &mut env, 0, 100000).map(|r| r.value),
        Err(_)
    ));
}

#[test]
fn test_rec() {
    let mut env = fresh_env();
    let exprs =
        parse_file("(define (fib n) (if (< n 2) n (+ (fib (- n 1)) (fib (- n 2))))) (fib 10)")
            .unwrap();
    let result = eval_exprs(exprs, &mut env, 0, 100000);
    assert_eq!(result.map(|r| r.value), Ok(Value::Integer(55)));
}

#[test]
fn test_defmacro() {
    let mut env = fresh_env();
    let exprs =
        parse_file("(defmacro (when cond body) `(if ~cond ~body #f)) (when (< 1 2) 3)").unwrap();
    let result = eval_exprs(exprs, &mut env, 0, 100000);
    assert_eq!(result.map(|r| r.value), Ok(Value::Integer(3)));
}

#[test]
fn test_quasiquote() {
    let mut env = fresh_env();

    // Simple quasiquote with no unquote
    let exprs = parse_file("`(1 2 3)").unwrap();
    let result = eval_exprs(exprs, &mut env, 0, 100000);
    match result.map(|r| r.value) {
        Ok(Value::List(items)) => {
            assert_eq!(items.len(), 3);
            assert_eq!(items[0], Value::Integer(1));
            assert_eq!(items[1], Value::Integer(2));
            assert_eq!(items[2], Value::Integer(3));
        }
        _ => panic!("Expected list"),
    }

    // Quasiquote with unquote
    let exprs = parse_file("(define x 42) `(1 ~x 3)").unwrap();
    let result = eval_exprs(exprs, &mut env, 0, 100000);
    match result.map(|r| r.value) {
        Ok(Value::List(items)) => {
            assert_eq!(items.len(), 3);
            assert_eq!(items[0], Value::Integer(1));
            assert_eq!(items[1], Value::Integer(42));
            assert_eq!(items[2], Value::Integer(3));
        }
        _ => panic!("Expected list"),
    }

    // Simple case of quasiquote
    let exprs = parse_file("`(1 2 3)").unwrap();
    let result = eval_exprs(exprs, &mut env, 0, 100000);
    match result.map(|r| r.value) {
        Ok(Value::List(items)) => {
            assert_eq!(items.len(), 3);
            assert_eq!(items[0], Value::Integer(1));
            assert_eq!(items[1], Value::Integer(2));
            assert_eq!(items[2], Value::Integer(3));
        }
        _ => panic!("Expected list"),
    }

    // Using unquote with a defined value
    let exprs = parse_file("(define x 42) `(1 ~x 3)").unwrap();
    let result = eval_exprs(exprs, &mut env, 0, 100000);
    match result.map(|r| r.value) {
        Ok(Value::List(items)) => {
            assert_eq!(items.len(), 3);
            assert_eq!(items[0], Value::Integer(1));
            assert_eq!(items[1], Value::Integer(42));
            assert_eq!(items[2], Value::Integer(3));
        }
        _ => panic!("Expected list"),
    }

    // Nested quasiquote/unquote - this tests proper nesting behavior
    let exprs = parse_file("(define x 42) `(1 `(2 ~x) ~x)").unwrap();
    let result = eval_exprs(exprs, &mut env, 0, 100000);
    match result.map(|r| r.value) {
        Ok(Value::List(items)) => {
            assert_eq!(items.len(), 3);
            assert_eq!(items[0], Value::Integer(1));

            // The second item should be a quasiquoted list where the inner x
            // is not evaluated because it's inside a nested quasiquote
            match &items[1] {
                Value::List(inner) => {
                    assert_eq!(inner.len(), 2);
                    assert_eq!(inner[0], Value::Integer(2));
                    assert_eq!(inner[1], Value::Symbol("x".to_string()));
                }
                _ => panic!("Expected inner list"),
            }

            // The third item is directly unquoted, so it should be evaluated
            assert_eq!(items[2], Value::Integer(42));
        }
        _ => panic!("Expected list"),
    }
}

#[test]
fn test_list_functions() {
    let mut env = fresh_env();

    // Test list?
    let exprs = parse_file("(list? '(1 2 3))").unwrap();
    assert_eq!(
        eval_exprs(exprs, &mut env, 0, 100000).map(|r| r.value),
        Ok(Value::Symbol("#t".to_string()))
    );

    let exprs = parse_file("(list? 42)").unwrap();
    assert_eq!(
        eval_exprs(exprs, &mut env, 0, 100000).map(|r| r.value),
        Ok(Value::Symbol("#f".to_string()))
    );

    // Test first/car
    let exprs = parse_file("(car '(1 2 3))").unwrap();
    assert_eq!(
        eval_exprs(exprs, &mut env, 0, 100000).map(|r| r.value),
        Ok(Value::Integer(1))
    );

    // Test rest/cdr
    let exprs = parse_file("(cdr '(1 2 3))").unwrap();
    match eval_exprs(exprs, &mut env, 0, 100000).map(|r| r.value) {
        Ok(Value::List(items)) => {
            assert_eq!(items.len(), 2);
            assert_eq!(items[0], Value::Integer(2));
            assert_eq!(items[1], Value::Integer(3));
        }
        _ => panic!("Expected list"),
    }

    // Test null?
    let exprs = parse_file("(null? '())").unwrap();
    assert_eq!(
        eval_exprs(exprs, &mut env, 0, 100000).map(|r| r.value),
        Ok(Value::Symbol("#t".to_string()))
    );

    let exprs = parse_file("(null? '(1 2 3))").unwrap();
    assert_eq!(
        eval_exprs(exprs, &mut env, 0, 100000).map(|r| r.value),
        Ok(Value::Symbol("#f".to_string()))
    );

    // Test empty list handling
    let exprs = parse_file("(cdr '())").unwrap();
    match eval_exprs(exprs, &mut env, 0, 100000).map(|r| r.value) {
        Ok(Value::List(items)) => {
            assert_eq!(items.len(), 0);
        }
        _ => panic!("Expected empty list"),
    }
}

#[test]
fn test_define_gc() {
    let mut env = fresh_env();

    // Store a mesh under a fresh id; the handle stands for the host's object
    let id = env.insert_model(0, Model::Mesh(7));

    // Define a function that mentions the id and evaluate it
    let exprs = parse_file(&format!("(define (use-mesh x) (list {})) (use-mesh 1)", id)).unwrap();
    let result = eval_exprs(exprs, &mut env, 0, 100000);
    assert!(result.is_ok());

    // Mesh should still be present
    assert!(env.get_model(0, id).is_some());

    // Clear all definitions and collect
    env.clear_vars(0);
    env.collect_garbage(0);

    // Mesh should now be collected
    assert!(env.get_model(0, id).is_none());
}
