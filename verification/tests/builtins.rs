use mx::builtins;
use mx::Number;
use mx::Primitive;
use mx::Table;
use mx::Value;

fn number(x: f64) -> Value {
    Value::Primitive(Primitive::Number(Number::new(x.to_bits())))
}

fn index(x: f64) -> Primitive {
    Primitive::Number(Number::new(x.to_bits()))
}

fn text(s: &str) -> Primitive {
    Primitive::String(s.to_string())
}

fn dict(pairs: Vec<(Primitive, Value)>) -> Value {
    let mut table = Table::new();
    for (k, v) in pairs {
        table.set(k, v);
    }
    Value::Table(table)
}

#[test]
fn test_bool_nil() {
    assert_eq!(builtins::bool(&Value::nil()), false);
}

#[test]
fn test_bool_bool() {
    assert_eq!(builtins::bool(&Value::Primitive(Primitive::Bool(true))), true);
    assert_eq!(builtins::bool(&Value::Primitive(Primitive::Bool(false))), false);
}

#[test]
fn test_bool_number() {
    assert_eq!(builtins::bool(&number(0 as f64)), false);
    assert_eq!(builtins::bool(&number(0.0)), false);
    assert_eq!(builtins::bool(&number(-0.0)), false);
    assert_eq!(builtins::bool(&number(1 as f64)), true);
    assert_eq!(builtins::bool(&number(1.0)), true);
    assert_eq!(builtins::bool(&number(-1.0)), true);
    assert_eq!(builtins::bool(&number(0.1)), true);
    assert_eq!(builtins::bool(&number(-0.1)), true);
    assert_eq!(builtins::bool(&number(f64::INFINITY)), true);
    assert_eq!(builtins::bool(&number(-f64::INFINITY)), true);
    assert_eq!(builtins::bool(&number(f64::NAN)), true);
    assert_eq!(builtins::bool(&number(-f64::NAN)), true);
}

#[test]
fn test_bool_table() {
    assert_eq!(builtins::bool(&dict(vec![])), false);
    assert_eq!(builtins::bool(&dict(vec![(index(0.0), Value::nil())])), false);
    assert_eq!(builtins::bool(&dict(vec![(index(0.0), number(1.0))])), true);
    assert_eq!(builtins::bool(&dict(vec![(text("a"), number(1.0))])), true);
    assert_eq!(builtins::bool(&dict(vec![(text("a"), Value::nil())])), false);
    assert_eq!(
        builtins::bool(&dict(vec![(text("a"), number(1.0)), (text("b"), Value::nil())])),
        true
    );
}
