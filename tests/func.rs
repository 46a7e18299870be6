use mltalk::func::{alpha_convert, Builtin, Expr, Func};
use mltalk::types::{Mode, Type};
use mltalk::value::{Fault, Value};

fn describe_expr(e: &Expr) -> String {
    match e {
        Expr::Refer(n) => format!("ref {}", n),
        Expr::Value(Value::Str(s)) => format!("str {}", s),
        Expr::Value(Value::Func(f)) => format!("fn[{}]", describe(f)),
        Expr::Value(_) => "value".to_string(),
    }
}

fn describe(f: &Func) -> String {
    match f {
        Func::BuiltIn(b) => format!("builtin {:?}", b),
        Func::UserDefined(p, body, t) => {
            format!("{} . {} : {}", p, describe_expr(body), t.to_text())
        }
    }
}

#[test]
fn lambda_spellings_agree() {
    let a = Func::parse("λx. x").unwrap();
    let b = Func::parse("\\x. x").unwrap();
    assert_eq!(describe(&a), describe(&b));
    assert_eq!(describe(&a), "x . ref x : fn");
}

#[test]
fn annotated_lambda() {
    match Func::parse("\\x:num. x -> num").unwrap() {
        Func::UserDefined(p, body, t) => {
            assert_eq!(p, "x");
            assert!(matches!(*body, Expr::Refer(ref n) if n == "x"));
            match t {
                Type::Func(Some(pair), Mode::Pure) => {
                    assert!(matches!(pair.0, Type::Num));
                    assert!(matches!(pair.1, Type::Num));
                }
                other => panic!("unexpected {:?}", other),
            }
        }
        other => panic!("unexpected {:?}", other),
    }
}

#[test]
fn malformed_lambdas_fail() {
    assert!(matches!(Func::parse("x. x"), Err(Fault::Syntax)));
    assert!(matches!(Func::parse("λx x"), Err(Fault::Syntax)));
    assert!(matches!(Func::parse("λ . x"), Err(Fault::Syntax)));
    assert!(matches!(Func::parse("λ1x. x"), Err(Fault::Syntax)));
    assert!(matches!(Func::parse("λx:foo. x -> num"), Err(Fault::Syntax)));
    assert!(matches!(Func::parse("λx:num. x"), Err(Fault::Syntax)));
}

#[test]
fn curried_lambda_and_string_body() {
    let f = Func::parse("λx. λy. x").unwrap();
    assert_eq!(describe(&f), "x . fn[y . ref x : fn] : fn");
    let g = Func::parse("\\s. \"hi\"").unwrap();
    assert_eq!(describe(&g), "s . str hi : fn");
}

#[test]
fn bind_propagates_down_curried_chain() {
    let f = Func::parse("λx. λy. x").unwrap();
    let anno = Type::parse("fn(num -> fn(str -> num))").unwrap();
    let g = f.bind(anno).unwrap();
    assert_eq!(
        describe(&g),
        "x . fn[y . ref x : fn(str -> num)] : fn(num -> fn(str -> num))"
    );
}

#[test]
fn bind_without_pair_or_on_builtin_is_identity() {
    let f = Func::parse("λx. x").unwrap();
    let same = f.bind(Type::Func(None, Mode::Effect)).unwrap();
    assert_eq!(describe(&same), describe(&f));
    let b = Func::BuiltIn(Builtin::TypeOf);
    let kept = b.bind(Type::parse("fn(num -> num)").unwrap()).unwrap();
    assert_eq!(describe(&kept), "builtin TypeOf");
}

#[test]
fn alpha_convert_renames_parameter() {
    let f = Func::parse("λx. x").unwrap();
    let args = Value::List(vec![Value::Func(f), Value::Str("y".to_string())]);
    match alpha_convert(&args).unwrap() {
        Value::Func(g) => assert_eq!(describe(&g), "y . ref y : fn"),
        other => panic!("unexpected {:?}", other),
    }
}

#[test]
fn alpha_convert_respects_shadowing() {
    let f = Func::parse("λx. λx. x").unwrap();
    let args = Value::List(vec![Value::Func(f), Value::Str("z".to_string())]);
    match alpha_convert(&args).unwrap() {
        Value::Func(g) => assert_eq!(describe(&g), "z . fn[x . ref x : fn] : fn"),
        other => panic!("unexpected {:?}", other),
    }
    let h = Func::parse("λx. λy. x").unwrap();
    let args = Value::List(vec![Value::Func(h), Value::Str("z".to_string())]);
    match alpha_convert(&args).unwrap() {
        Value::Func(g) => assert_eq!(describe(&g), "z . fn[y . ref z : fn] : fn"),
        other => panic!("unexpected {:?}", other),
    }
}

#[test]
fn alpha_convert_faults() {
    let f = || Value::Func(Func::parse("λx. x").unwrap());
    assert!(matches!(alpha_convert(&Value::Num(1)), Err(Fault::Type(Value::Num(1), Type::List(None)))));
    assert!(matches!(alpha_convert(&Value::List(vec![f()])), Err(Fault::ArgLen)));
    assert!(matches!(
        alpha_convert(&Value::List(vec![f(), Value::Num(2)])),
        Err(Fault::Type(Value::Num(2), Type::Str))
    ));
    let builtin = Value::Func(Func::BuiltIn(Builtin::Eval));
    assert!(matches!(
        alpha_convert(&Value::List(vec![builtin, Value::Str("y".to_string())])),
        Err(Fault::Type(Value::Func(Func::BuiltIn(Builtin::Eval)), Type::Func(None, Mode::Pure)))
    ));
}

#[test]
fn expressions() {
    assert!(matches!(Expr::parse("  foo "), Ok(Expr::Refer(ref n)) if n == "foo"));
    assert!(matches!(Expr::parse("\"a b\""), Ok(Expr::Value(Value::Str(ref s))) if s == "a b"));
    assert!(matches!(Expr::parse("1x"), Err(Fault::Syntax)));
    assert!(matches!(Expr::parse(""), Err(Fault::Syntax)));
}

#[test]
fn runtime_types() {
    assert!(matches!(Value::Num(3).type_of(), Type::Num));
    assert!(matches!(Value::Str("a".to_string()).type_of(), Type::Str));
    assert!(matches!(Value::List(vec![]).type_of(), Type::List(None)));
    assert!(matches!(Value::Type(Type::Num).type_of(), Type::Kind));
    let f = Func::parse("λx:num. x -> str").unwrap();
    assert_eq!(Value::Func(f).type_of().to_text(), "fn(num -> str)");
    assert!(matches!(
        Value::Func(Func::BuiltIn(Builtin::Eval)).type_of(),
        Type::Func(None, Mode::Pure)
    ));
}

#[test]
fn builtin_dispatch() {
    assert!(Builtin::Eval.call(&Value::Str("1".to_string())).is_none());
    assert!(matches!(
        Builtin::TypeOf.call(&Value::Str("a".to_string())),
        Some(Ok(Value::Type(Type::Str)))
    ));
    let f = Value::Func(Func::parse("λa. a").unwrap());
    let args = Value::List(vec![f, Value::Str("b".to_string())]);
    match Builtin::AlphaConvert.call(&args) {
        Some(Ok(Value::Func(g))) => assert_eq!(describe(&g), "b . ref b : fn"),
        other => panic!("unexpected {:?}", other),
    }
    assert!(matches!(Builtin::AlphaConvert.call(&Value::List(vec![])), Some(Err(Fault::ArgLen))));
}
