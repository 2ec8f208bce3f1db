use std::sync::Arc;

use cadlisp::env::{Env, Model};
use cadlisp::eval::{assert_arg_count, default_env, eval, eval_exprs, ArgCount, EvalError};
use cadlisp::extract::{mesh, model, number, solid, Numeric};
use cadlisp::expr::Expr;
use cadlisp::parser::{parse_expr, parse_file, ParseError};
use cadlisp::run_file;
use cadlisp::value::Value;

#[test]
fn parse_is_pure() {
    // Parsing the same text twice yields structurally equal trees
    let text = "(define (f a) (+ a 1.5)) (f 2) ; trailing\n'(1 2 3)";
    let once = parse_file(text);
    let twice = parse_file(text);
    assert_eq!(once, twice);
    assert!(once.is_ok());
}

#[test]
fn arithmetic_scenarios() {
    let mut env = default_env();
    let exprs = parse_file("(- 5 1 1)").unwrap();
    assert_eq!(
        eval_exprs(exprs, &mut env, 0, 100000).map(|r| r.value),
        Ok(Value::Integer(3))
    );
    // doubles contribute their truncation
    let exprs = parse_file("(+ 1 2.75)").unwrap();
    assert_eq!(
        eval_exprs(exprs, &mut env, 0, 100000).map(|r| r.value),
        Ok(Value::Integer(3))
    );
    let exprs = parse_file("(- 10 2.75)").unwrap();
    assert_eq!(
        eval_exprs(exprs, &mut env, 0, 100000).map(|r| r.value),
        Ok(Value::Integer(8))
    );
}

#[test]
fn closure_application() {
    let mut env = default_env();
    let expr = parse_expr("((lambda (a b) (+ a b)) 1 2)").unwrap();
    assert_eq!(
        eval(&Arc::new(expr), &mut env, 0, 100000),
        Ok(Arc::new(Expr::integer(3)))
    );
}

#[test]
fn comparisons() {
    let mut env = default_env();
    for (text, expect) in [("(< 1 2)", "#t"), ("(> 1 2)", "#f")] {
        let exprs = parse_file(text).unwrap();
        assert_eq!(
            eval_exprs(exprs, &mut env, 0, 100000).map(|r| r.value),
            Ok(Value::Symbol(expect.to_string()))
        );
    }
    // `=` is not a symbol character, so `<=` and `>=` cannot be written in
    // source text; call the bound builtins by constructed form instead
    for (name, a, b, expect) in [("<=", 2, 2, "#t"), (">=", 1, 2, "#f")] {
        let call = Expr::list(vec![
            Arc::new(Expr::symbol(name)),
            Arc::new(Expr::integer(a)),
            Arc::new(Expr::integer(b)),
        ]);
        assert_eq!(
            eval(&Arc::new(call), &mut env, 0, 100000),
            Ok(Arc::new(Expr::symbol(expect)))
        );
    }
}

#[test]
fn unbound_symbol_fails_without_mutation() {
    let mut env = default_env();
    let before = env.vars(0).len();
    let expr = parse_expr("nope").unwrap();
    let result = eval(&Arc::new(expr), &mut env, 0, 100000);
    assert_eq!(
        result,
        Err(EvalError::UndefinedSymbol {
            name: "nope".to_string()
        })
    );
    // no binding was added or removed anywhere
    assert_eq!(env.vars(0).len(), before);
    assert_eq!(env.num_frames(), 1);
}

#[test]
fn preview_id_is_a_root() {
    let mut env = Env::new();
    let id = env.insert_model(0, Model::Mesh(5));
    env.insert_preview_list(0, id);
    // clearing every binding leaves the preview entry as a root
    env.clear_vars(0);
    env.collect_garbage(0);
    assert!(env.get_model(0, id).is_some());
    assert_eq!(env.preview_list(0), vec![id]);
}

#[test]
fn collection_is_idempotent() {
    let mut env = Env::new();
    let id1 = env.insert_model(0, Model::Mesh(1));
    let id2 = env.insert_model(0, Model::Solid(2));
    let id3 = env.insert_model(0, Model::Mesh(3));
    env.insert_preview_list(0, id1);
    env.insert(
        0,
        "keep".to_string(),
        Arc::new(Expr::Model {
            id: id2,
            location: None,
            trailing_newline: false,
        }),
    );

    env.collect_garbage(0);
    let kept1 = (
        env.get_model(0, id1),
        env.get_model(0, id2),
        env.get_model(0, id3),
        env.preview_list(0),
    );
    // a second pass with no intervening mutation removes nothing
    env.collect_garbage(0);
    let kept2 = (
        env.get_model(0, id1),
        env.get_model(0, id2),
        env.get_model(0, id3),
        env.preview_list(0),
    );
    assert_eq!(kept1, kept2);
    assert!(env.get_model(0, id3).is_none());
}

#[test]
fn closure_binding_keeps_id_reachable() {
    let mut env = Env::new();
    let id = env.insert_model(0, Model::Mesh(9));
    env.insert(
        0,
        "f".to_string(),
        Arc::new(Expr::Clausure {
            args: vec![],
            body: Arc::new(Expr::Model {
                id,
                location: None,
                trailing_newline: false,
            }),
            env: 0,
        }),
    );
    env.collect_garbage(0);
    assert!(env.get_model(0, id).is_some());
    env.clear_vars(0);
    env.collect_garbage(0);
    assert!(env.get_model(0, id).is_none());
}

#[test]
fn error_variants() {
    let mut env = default_env();

    // car of an empty list
    let exprs = parse_file("(car '())").unwrap();
    assert!(matches!(
        eval_exprs(exprs, &mut env, 0, 100000),
        Err(EvalError::EmptyList)
    ));

    // car of a non-list
    let exprs = parse_file("(car 42)").unwrap();
    assert!(matches!(
        eval_exprs(exprs, &mut env, 0, 100000),
        Err(EvalError::ExpectedList)
    ));

    // wrong argument count for a comparison
    let exprs = parse_file("(< 1)").unwrap();
    assert_eq!(
        eval_exprs(exprs, &mut env, 0, 100000).map(|r| r.value),
        Err(EvalError::ArityMismatch {
            expected: ArgCount::Exact(2),
            got: 1
        })
    );

    // non-numeric argument to +
    let exprs = parse_file("(+ 1 \"two\")").unwrap();
    assert!(matches!(
        eval_exprs(exprs, &mut env, 0, 100000),
        Err(EvalError::NumericArgs)
    ));

    // a bare unquote outside any quasiquote
    let exprs = parse_file("~x").unwrap();
    assert!(matches!(
        eval_exprs(exprs, &mut env, 0, 100000),
        Err(EvalError::UnquoteOutsideQuasiquote)
    ));

    // applying a non-callable head
    let exprs = parse_file("(1 2)").unwrap();
    assert!(matches!(
        eval_exprs(exprs, &mut env, 0, 100000),
        Err(EvalError::NotCallable)
    ));

    // the depth budget runs out on unbounded recursion
    let exprs = parse_file("(define (loop n) (loop n)) (loop 1)").unwrap();
    assert!(matches!(
        eval_exprs(exprs, &mut env, 0, 1000),
        Err(EvalError::DepthExceeded)
    ));
}

#[test]
fn parse_errors() {
    // an unterminated string literal fails at its position
    assert_eq!(
        parse_file("\"abc"),
        Err(ParseError::LexError { position: 0 })
    );
    // an unmatched open parenthesis
    assert!(matches!(parse_file("(+ 1 2"), Err(ParseError::UnexpectedEnd)));
    // an integer literal outside the 64-bit range
    assert!(matches!(
        parse_file("99999999999999999999"),
        Err(ParseError::IntegerOverflow { position: 0 })
    ));
    // a 64-bit boundary literal still parses
    let exprs = parse_file("9223372036854775807").unwrap();
    let mut env = default_env();
    assert_eq!(
        eval_exprs(exprs, &mut env, 0, 100000).map(|r| r.value),
        Ok(Value::Integer(9223372036854775807))
    );
}

#[test]
fn run_file_summary() {
    let mut env = default_env();
    let result = run_file("(define a 40) (+ a 2)", &mut env, 0, 100000).unwrap();
    assert_eq!(result.value, Value::Integer(42));
    assert_eq!(result.polys, vec![]);
    assert_eq!(result.previews, vec![]);
}

#[test]
fn quote_returns_payload() {
    let mut env = default_env();
    let exprs = parse_file("'x").unwrap();
    assert_eq!(
        eval_exprs(exprs, &mut env, 0, 100000).map(|r| r.value),
        Ok(Value::Symbol("x".to_string()))
    );
}

#[test]
fn format_matches_source() {
    let e = parse_expr("(+ 1 -2 x)").unwrap();
    assert_eq!(e.format(), "(+ 1 -2 x)");
    // a double prints as the literal it was written as
    let e = parse_expr("1.50").unwrap();
    assert_eq!(e.format(), "1.50");
    let e = parse_expr("\"hi\"").unwrap();
    assert_eq!(e.format(), "\"hi\"");
    let e = parse_expr("'(1 2)").unwrap();
    assert_eq!(e.format(), "'(1 2)");
}

#[test]
fn extraction_helpers() {
    assert_eq!(
        number(&Expr::integer(5)),
        Ok(Numeric::Integer(5))
    );
    assert_eq!(
        number(&Expr::double("2.5".to_string())),
        Ok(Numeric::Double("2.5".to_string()))
    );
    assert!(matches!(
        number(&Expr::symbol("x")),
        Err(EvalError::ExpectedNumber)
    ));

    let mut env = Env::new();
    let id = env.insert_model(0, Model::Mesh(4));
    let re = Expr::model(id);
    assert_eq!(model(&re, &env, 0), Ok(Model::Mesh(4)));
    assert_eq!(mesh(&re, &env, 0), Ok(4));
    assert!(matches!(
        solid(&re, &env, 0),
        Err(EvalError::WrongModelType)
    ));
    // a swept id is simply not found
    env.clear_vars(0);
    env.collect_garbage(0);
    assert!(matches!(
        model(&re, &env, 0),
        Err(EvalError::ModelNotFound { .. })
    ));
    assert!(matches!(
        model(&Expr::integer(1), &env, 0),
        Err(EvalError::ExpectedModel)
    ));
}

#[test]
fn arity_policies() {
    let args = vec![Arc::new(Expr::integer(1)), Arc::new(Expr::integer(2))];
    assert!(ArgCount::Exact(2).contains(&2));
    assert!(!ArgCount::Exact(2).contains(&3));
    assert!(ArgCount::Range(1, 3).contains(&2));
    assert!(ArgCount::AtLeast(1).contains(&5));
    assert!(ArgCount::AtMost(2).contains(&0));
    assert!(assert_arg_count(&args, ArgCount::Exact(2)).is_ok());
    assert_eq!(
        assert_arg_count(&args, ArgCount::AtLeast(3)),
        Err(EvalError::ArityMismatch {
            expected: ArgCount::AtLeast(3),
            got: 2
        })
    );
}

#[test]
fn if_truthiness() {
    let mut env = default_env();
    // every value other than the literal symbol #f is truthy, 0 included
    for (text, expect) in [
        ("(if 0 2 3)", 2),
        ("(if 1 2 3)", 2),
        ("(if \"s\" 2 3)", 2),
        ("(if (list) 2 3)", 2),
        ("(if 'x 2 3)", 2),
    ] {
        let exprs = parse_file(text).unwrap();
        assert_eq!(
            eval_exprs(exprs, &mut env, 0, 100000).map(|r| r.value),
            Ok(Value::Integer(expect))
        );
    }
    // only the symbol #f selects the else-branch; written literally it
    // would be an unbound-symbol lookup, so produce it quoted
    let exprs = parse_file("(if '#f 2 3)").unwrap();
    assert_eq!(
        eval_exprs(exprs, &mut env, 0, 100000).map(|r| r.value),
        Ok(Value::Integer(3))
    );
    // a function value as condition is truthy too
    let exprs = parse_file("(if (lambda (a) a) 2 3)").unwrap();
    assert_eq!(
        eval_exprs(exprs, &mut env, 0, 100000).map(|r| r.value),
        Ok(Value::Integer(2))
    );
}
