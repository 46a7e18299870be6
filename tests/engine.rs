use mltalk::engine::{Engine, STDLIB_URL};
use mltalk::func::{Builtin, Func};
use mltalk::types::Mode;
use mltalk::value::{Fault, Value};

fn name(s: &str) -> String {
    s.to_string()
}

#[test]
fn new_context() {
    let mut e = Engine::new();
    assert!(matches!(e.mode, Mode::Pure));
    assert!(e.is_toplevel);
    assert!(!e.is_lazy);
    assert!(e.is_effective("eval"));
    assert!(!e.is_effective("type"));
    let keys: Vec<&str> = e.scope.iter().map(|(k, _)| k.as_str()).collect();
    assert_eq!(keys, vec!["stdlib", "eval", "type", "alphaConvert"]);
    assert!(matches!(e.access("stdlib"), Ok(Value::Str(ref s)) if s == STDLIB_URL));
    assert!(matches!(e.access("eval"), Err(Fault::Pure(ref n)) if n == "eval"));
    assert!(matches!(e.access("type"), Ok(Value::Func(Func::BuiltIn(Builtin::TypeOf)))));
    e.mode = Mode::Effect;
    assert!(matches!(e.access("eval"), Ok(Value::Func(Func::BuiltIn(Builtin::Eval)))));
}

#[test]
fn discard_name_binds_nothing() {
    let mut e = Engine::new();
    assert!(e.allocate(&name("_"), &Value::Num(1)).is_ok());
    assert_eq!(e.scope.len(), 4);
    assert!(matches!(e.access("_"), Err(Fault::Refer(ref n)) if n == "_"));
}

#[test]
fn invalid_name_is_refused() {
    let mut e = Engine::new();
    assert!(matches!(e.allocate(&name("1x"), &Value::Num(1)), Err(Fault::Syntax)));
    assert!(matches!(e.allocate(&name("a-b"), &Value::Num(1)), Err(Fault::Syntax)));
    assert!(matches!(e.allocate(&name(""), &Value::Num(1)), Err(Fault::Syntax)));
    assert_eq!(e.scope.len(), 4);
}

#[test]
fn effect_gate() {
    let mut e = Engine::new();
    e.set_effect("x");
    e.allocate(&name("x"), &Value::Num(5)).unwrap();
    assert!(matches!(e.access("x"), Err(Fault::Pure(ref n)) if n == "x"));
    e.mode = Mode::Effect;
    assert!(matches!(e.access("x"), Ok(Value::Num(5))));
}

#[test]
fn effect_check_precedes_binding() {
    let mut e = Engine::new();
    e.set_effect("ghost");
    assert!(matches!(e.access("ghost"), Err(Fault::Pure(_))));
    e.mode = Mode::Effect;
    assert!(matches!(e.access("ghost"), Err(Fault::Refer(ref n)) if n == "ghost"));
}

#[test]
fn unresolved_reference() {
    let mut e = Engine::new();
    assert!(matches!(e.access("nothing"), Err(Fault::Refer(ref n)) if n == "nothing"));
}

#[test]
fn overwrite_keeps_position() {
    let mut e = Engine::new();
    e.allocate(&name("x"), &Value::Num(1)).unwrap();
    e.allocate(&name("y"), &Value::Num(2)).unwrap();
    e.allocate(&name("x"), &Value::Num(3)).unwrap();
    assert_eq!(e.scope.len(), 6);
    assert_eq!(e.scope[4].0, "x");
    assert_eq!(e.scope[5].0, "y");
    assert!(matches!(e.access("x"), Ok(Value::Num(3))));
    assert!(matches!(e.access("y"), Ok(Value::Num(2))));
}

#[test]
fn effect_registration_is_idempotent() {
    let mut e = Engine::new();
    e.set_effect("io");
    e.set_effect("io");
    assert_eq!(e.effect.len(), 2);
    assert!(e.is_effective("io"));
    e.unset_effect("io");
    e.unset_effect("io");
    assert!(!e.is_effective("io"));
    assert_eq!(e.effect, vec!["eval".to_string()]);
    e.unset_effect("eval");
    assert!(matches!(e.access("eval"), Ok(Value::Func(_))));
}

#[test]
fn access_returns_a_copy() {
    let mut e = Engine::new();
    e.allocate(&name("l"), &Value::List(vec![Value::Num(1), Value::Str("a".to_string())]))
        .unwrap();
    let got = e.access("l").unwrap();
    match got {
        Value::List(items) => {
            assert_eq!(items.len(), 2);
            assert!(matches!(items[0], Value::Num(1)));
            assert!(matches!(items[1], Value::Str(ref s) if s == "a"));
        }
        other => panic!("unexpected {:?}", other),
    }
}
