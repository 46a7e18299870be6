use mltalk::types::{Mode, Type};
use mltalk::value::Fault;

fn parsed(text: &str) -> Type {
    Type::parse(text).unwrap()
}

#[test]
fn list_of_num_renders_back() {
    assert_eq!(parsed("list[num]").to_text(), "list[num]");
}

#[test]
fn effectful_function_type() {
    match parsed("fn(num -> str + effect)") {
        Type::Func(Some(pair), Mode::Effect) => {
            assert!(matches!(pair.0, Type::Num));
            assert!(matches!(pair.1, Type::Str));
        }
        other => panic!("unexpected {:?}", other),
    }
}

#[test]
fn pure_function_type_renders() {
    let t = parsed("fn( num ->str )");
    assert!(matches!(t, Type::Func(Some(_), Mode::Pure)));
    assert_eq!(t.to_text(), "fn(num -> str)");
    assert_eq!(parsed("fn(num -> str + effect)").to_text(), "fn(num -> str + effect)");
}

#[test]
fn keywords() {
    assert!(matches!(parsed("num"), Type::Num));
    assert!(matches!(parsed("str"), Type::Str));
    assert!(matches!(parsed("list"), Type::List(None)));
    assert!(matches!(parsed("dict"), Type::Dict(None)));
    assert!(matches!(parsed("range"), Type::Range));
    assert!(matches!(parsed("fn"), Type::Func(None, Mode::Pure)));
    assert!(matches!(parsed("fn<effect>"), Type::Func(None, Mode::Effect)));
    assert!(matches!(parsed("kind"), Type::Kind));
    assert!(matches!(parsed("any"), Type::Any));
    assert!(matches!(parsed("  \tnum \n"), Type::Num));
}

#[test]
fn malformed_types_fail() {
    assert!(matches!(Type::parse("number"), Err(Fault::Syntax)));
    assert!(matches!(Type::parse("list[foo]"), Err(Fault::Syntax)));
    assert!(matches!(Type::parse("fn(num)"), Err(Fault::Syntax)));
    assert!(matches!(Type::parse(""), Err(Fault::Syntax)));
}

#[test]
fn dict_type_round_trip() {
    let t = parsed("dict{a: num, b: list[str], c: dict{d: fn(num -> num)}}");
    let text = t.to_text();
    assert_eq!(text, "dict{ a: num, b: list[str], c: dict{ d: fn(num -> num) } }");
    assert_eq!(parsed(&text).to_text(), text);
    match t {
        Type::Dict(Some(fields)) => {
            assert_eq!(fields.len(), 3);
            assert_eq!(fields[0].0, "a");
            assert_eq!(fields[2].0, "c");
        }
        other => panic!("unexpected {:?}", other),
    }
}

#[test]
fn dict_type_edge_cases() {
    assert_eq!(parsed("dict{}").to_text(), "dict{  }");
    assert!(matches!(Type::parse("dict{a: num, a: str}"), Err(Fault::Syntax)));
    assert!(matches!(Type::parse("dict{1a: num}"), Err(Fault::Syntax)));
    assert!(matches!(Type::parse("dict{a num}"), Err(Fault::Syntax)));
}

#[test]
fn comparator_is_directional() {
    let bare = Type::Func(None, Mode::Pure);
    let annotated = parsed("fn(num -> num + effect)");
    assert!(bare == annotated);
    assert!(!(annotated == bare));
}

#[test]
fn comparator_wildcards_and_any() {
    assert!(Type::Any == Type::Num);
    assert!(!(Type::Num == Type::Any));
    assert!(Type::List(None) == parsed("list[num]"));
    assert!(!(parsed("list[num]") == Type::List(None)));
    assert!(Type::Dict(None) == parsed("dict{a: num}"));
    assert!(parsed("list[num]") == parsed("list[ num ]"));
    assert!(!(parsed("list[num]") == parsed("list[str]")));
    assert!(!(Type::List(None) == Type::Num));
}

#[test]
fn clone_keeps_text() {
    let t = parsed("dict{a: fn(num -> list[str] + effect)}");
    assert_eq!(t.clone().to_text(), t.to_text());
}
