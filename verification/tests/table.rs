use mx::types::Type;
use mx::types::TypeOf;
use mx::Number;
use mx::Primitive;
use mx::Table;
use mx::Value;

fn n(x: f64) -> Value {
    Value::Primitive(Primitive::Number(Number::new(x.to_bits())))
}

fn at(x: f64) -> Primitive {
    Primitive::Number(Number::new(x.to_bits()))
}

fn s(text: &str) -> Primitive {
    Primitive::String(text.to_string())
}

fn of(pairs: Vec<(Primitive, Value)>) -> Table {
    let mut table = Table::new();
    for (k, v) in pairs {
        table.set(k, v);
    }
    table
}

#[test]
fn new_table_binds_nothing() {
    let table = Table::new();
    assert_eq!(table.get(&s("a")), None);
    assert_eq!(table.iter().len(), 0);
}

#[test]
fn set_binds_and_overwrites() {
    let mut table = Table::new();
    table.set(s("a"), n(1.0));
    assert_eq!(table.get(&s("a")), Some(&n(1.0)));
    table.set(s("a"), n(2.0));
    assert_eq!(table.get(&s("a")), Some(&n(2.0)));
    assert_eq!(table.iter().len(), 1);
    assert_eq!(table.get(&s("b")), None);
}

#[test]
fn get_tells_nil_from_nothing() {
    let mut table = Table::new();
    table.set(s("a"), Value::nil());
    assert_eq!(table.get(&s("a")), Some(&Value::nil()));
    assert_eq!(table.get(&s("b")), None);
}

#[test]
fn key_bound_to_nil_counts_as_absent() {
    let mut table = of(vec![(s("a"), n(1.0)), (s("b"), n(2.0))]);
    table.set(s("a"), Value::nil());

    let listed = table.iter();
    assert_eq!(listed.len(), 1);
    assert_eq!(listed[0], (&s("b"), &n(2.0)));

    assert_eq!(table, of(vec![(s("b"), n(2.0))]));
    assert_eq!(of(vec![(s("b"), n(2.0))]), table);
    assert_ne!(of(vec![(s("a"), n(1.0)), (s("b"), n(2.0))]), table);

    *table.get_mut(s("a")) = n(3.0);
    assert_eq!(table.get(&s("a")), Some(&n(3.0)));
    assert_eq!(table.iter().len(), 2);
}

#[test]
fn get_mut_binds_a_missing_key_to_nil() {
    let mut table = Table::new();
    assert!(table.get_mut(s("a")).is_nil());
    assert_eq!(table.get(&s("a")), Some(&Value::nil()));
    *table.get_mut(s("a")) = n(1.0);
    assert_eq!(table.get(&s("a")), Some(&n(1.0)));
}

#[test]
fn remove_unbinds() {
    let mut table = of(vec![(s("a"), n(1.0)), (s("b"), n(2.0)), (s("c"), n(3.0))]);
    assert_eq!(table.remove(&s("b")), Some(n(2.0)));
    assert_eq!(table.remove(&s("b")), None);
    assert_eq!(table.get(&s("b")), None);
    assert_eq!(table.get(&s("a")), Some(&n(1.0)));
    assert_eq!(table.get(&s("c")), Some(&n(3.0)));
}

#[test]
fn compact_drops_what_is_bound_to_nil() {
    let mut table = of(vec![
        (s("a"), Value::nil()),
        (s("b"), n(2.0)),
        (s("c"), Value::nil()),
        (s("d"), Value::nil()),
        (s("e"), n(5.0)),
    ]);
    table.compact();
    assert_eq!(table.get(&s("a")), None);
    assert_eq!(table.get(&s("c")), None);
    assert_eq!(table.get(&s("d")), None);
    assert_eq!(table.get(&s("b")), Some(&n(2.0)));
    assert_eq!(table.get(&s("e")), Some(&n(5.0)));
}

#[test]
fn equal_numbers_are_one_key() {
    let mut table = Table::new();
    table.set(at(0.0), n(1.0));
    table.set(at(-0.0), n(2.0));
    table.set(at(f64::NAN), n(3.0));
    table.set(at(-f64::NAN), n(4.0));
    assert_eq!(table.iter().len(), 2);
    assert_eq!(table.get(&at(0.0)), Some(&n(2.0)));
    assert_eq!(table.get(&at(f64::NAN)), Some(&n(4.0)));
}

#[test]
fn keys_of_different_kinds_are_different() {
    let mut table = Table::new();
    table.set(Primitive::Nil, n(0.0));
    table.set(Primitive::Bool(false), n(1.0));
    table.set(Primitive::Bool(true), n(2.0));
    table.set(at(1.0), n(3.0));
    table.set(s("1"), n(4.0));
    table.set(s(""), n(5.0));
    assert_eq!(table.iter().len(), 6);
    assert_eq!(table.get(&Primitive::Nil), Some(&n(0.0)));
    assert_eq!(table.get(&Primitive::Bool(true)), Some(&n(2.0)));
    assert_eq!(table.get(&at(1.0)), Some(&n(3.0)));
    assert_eq!(table.get(&s("1")), Some(&n(4.0)));
}

#[test]
fn from_vec_binds_places() {
    let table = Table::from_vec(vec![n(10.0), n(20.0), n(30.0)]);
    assert_eq!(table.get(&at(0.0)), Some(&n(10.0)));
    assert_eq!(table.get(&at(1.0)), Some(&n(20.0)));
    assert_eq!(table.get(&at(2.0)), Some(&n(30.0)));
    assert_eq!(table.get(&at(3.0)), None);
    assert_eq!(table.iter().len(), 3);
}

#[test]
fn iter_list_stops_at_the_first_gap() {
    let table = of(vec![
        (at(0.0), n(1.0)),
        (at(1.0), n(2.0)),
        (at(3.0), n(4.0)),
        (s("x"), n(5.0)),
    ]);
    assert_eq!(table.iter_list(), vec![n(1.0), n(2.0)]);
}

#[test]
fn iter_list_stops_at_nil() {
    let table = Table::from_vec(vec![
        Value::Primitive(Primitive::Bool(true)),
        Value::Primitive(Primitive::Bool(false)),
        n(12.0),
        Value::nil(),
        Value::Primitive(s("never seen")),
    ]);
    assert_eq!(
        table.iter_list(),
        vec![
            Value::Primitive(Primitive::Bool(true)),
            Value::Primitive(Primitive::Bool(false)),
            n(12.0),
        ]
    );
    assert_eq!(Table::new().iter_list(), vec![]);
}

#[test]
fn into_pairs_lists_the_live_bindings() {
    let table = of(vec![(s("a"), n(1.0)), (s("b"), Value::nil()), (s("c"), n(3.0))]);
    let mut pairs = table.into_pairs();
    pairs.sort_by(|x, y| x.0.partial_cmp(&y.0).unwrap());
    assert_eq!(pairs, vec![(s("a"), n(1.0)), (s("c"), n(3.0))]);
}

#[test]
fn a_table_is_walked_by_its_live_bindings() {
    let table = of(vec![(s("a"), n(1.0)), (s("b"), Value::nil()), (s("c"), n(3.0))]);
    let mut seen = Vec::new();
    for (key, value) in table {
        seen.push((key, value));
    }
    seen.sort_by(|x, y| x.0.partial_cmp(&y.0).unwrap());
    assert_eq!(seen, vec![(s("a"), n(1.0)), (s("c"), n(3.0))]);
}

#[test]
fn merge_prefers_the_other_table() {
    let mut table = of(vec![(s("a"), n(1.0)), (s("b"), n(2.0))]);
    table.merge(of(vec![(s("b"), n(3.0)), (s("c"), n(4.0))]));
    assert_eq!(table, of(vec![(s("a"), n(1.0)), (s("b"), n(3.0)), (s("c"), n(4.0))]));
    assert_eq!(table.iter().len(), 3);
}

#[test]
fn merge_passes_over_what_is_bound_to_nil() {
    let mut table = of(vec![(s("a"), n(1.0))]);
    table.merge(of(vec![(s("a"), Value::nil()), (s("b"), Value::nil())]));
    assert_eq!(table.get(&s("a")), Some(&n(1.0)));
    assert_eq!(table.get(&s("b")), None);
}

#[test]
fn a_table_does_not_equal_another_that_binds_more() {
    let small = of(vec![(s("a"), n(1.0))]);
    let large = of(vec![(s("a"), n(1.0)), (s("b"), n(2.0))]);
    assert!(!(small == large));
    assert!(!(large == small));
    assert!(small == small.clone());
    assert!(small == small);
    assert!(!(Table::new() == large));
    assert!(!(large == Table::new()));
    assert!(Table::new() == Table::new());
}

#[test]
fn equal_tables_are_equal_both_ways() {
    let plain = of(vec![(s("a"), n(1.0)), (s("b"), n(2.0))]);
    let other_order = of(vec![(s("b"), n(2.0)), (s("a"), n(1.0))]);
    let with_nil = of(vec![(s("a"), n(1.0)), (s("c"), Value::nil()), (s("b"), n(2.0))]);
    let different = of(vec![(s("a"), n(1.0)), (s("b"), n(3.0))]);
    assert!(plain == other_order);
    assert!(other_order == plain);
    assert!(plain == with_nil);
    assert!(with_nil == plain);
    assert!(!(plain == different));
    assert!(!(different == plain));
    assert!(of(vec![(s("c"), Value::nil())]) == Table::new());
    assert!(Table::new() == of(vec![(s("c"), Value::nil())]));
}

#[test]
fn tables_in_tables_are_compared() {
    let inner = of(vec![(s("x"), n(1.0))]);
    let other = of(vec![(s("x"), n(2.0))]);
    let a = of(vec![(s("t"), Value::Table(inner.clone()))]);
    let b = of(vec![(s("t"), Value::Table(inner.clone()))]);
    let c = of(vec![(s("t"), Value::Table(other))]);
    let mut more = inner;
    more.set(s("y"), n(2.0));
    let d = of(vec![(s("t"), Value::Table(more))]);
    assert!(a == b);
    assert!(b == a);
    assert!(!(a == c));
    assert!(!(c == a));
    assert!(!(a == d));
    assert!(!(d == a));
}

#[test]
fn clone_copies_bindings() {
    let table = of(vec![(s("a"), n(1.0)), (at(0.0), Value::Table(of(vec![(s("b"), n(2.0))])))]);
    let mut copy = table.clone();
    assert_eq!(copy, table);
    assert_eq!(table, copy);
    copy.set(s("a"), n(9.0));
    assert_eq!(table.get(&s("a")), Some(&n(1.0)));
    assert_eq!(copy.get(&s("a")), Some(&n(9.0)));
}

#[test]
fn has_live_sees_through_nil() {
    assert!(!Table::new().has_live());
    assert!(!of(vec![(s("a"), Value::nil())]).has_live());
    assert!(of(vec![(s("a"), Value::nil()), (s("b"), n(0.0))]).has_live());
}

#[test]
fn values_tell_their_kind() {
    assert!(Value::nil().is_nil());
    assert!(!n(0.0).is_nil());
    assert!(Value::Primitive(Primitive::Bool(false)).is_bool());
    assert!(n(1.0).is_number());
    assert!(Value::Primitive(s("x")).is_string());
    assert!(Value::table().is_table());
    assert!(!Value::FunctionPointer(0).is_table());
    assert!(n(1.0).is_primitive());
    assert!(!Value::table().is_primitive());
    assert_eq!(Value::nil().type_of(), Type::Nil);
    assert_eq!(Value::Primitive(Primitive::Bool(true)).type_of(), Type::Bool);
    assert_eq!(n(1.0).type_of(), Type::Number);
    assert_eq!(Value::Primitive(s("x")).type_of(), Type::String);
    assert_eq!(Value::table().type_of(), Type::Table);
    assert_eq!(Value::FunctionPointer(3).type_of(), Type::Function);
    assert_eq!(s("x").type_of(), Type::String);
    assert!(Primitive::Nil.is_nil());
    assert!(Primitive::Bool(true).is_bool());
    assert!(at(1.0).is_number());
    assert!(s("").is_string());
    assert_eq!(Primitive::default(), Primitive::Nil);
}

#[test]
fn values_give_what_they_are() {
    assert_eq!(n(1.0).get_primitive(), Some(at(1.0)));
    assert_eq!(Value::table().get_primitive(), None);
    assert_eq!(Value::table().get_table(), Some(Table::new()));
    assert_eq!(n(1.0).get_table(), None);
    assert_eq!(Value::FunctionPointer(1).get_table(), None);
}

#[test]
fn values_are_equal_as_their_kinds_say() {
    assert_eq!(Value::FunctionPointer(1), Value::FunctionPointer(1));
    assert_ne!(Value::FunctionPointer(1), Value::FunctionPointer(2));
    assert_ne!(Value::FunctionPointer(1), n(1.0));
    assert_ne!(Value::nil(), Value::table());
    assert_eq!(n(0.0), n(-0.0));
    assert_eq!(n(f64::NAN), n(f64::NAN));
    assert_ne!(Value::Primitive(s("a")), Value::Primitive(s("b")));
    assert_ne!(Value::Primitive(s("1")), n(1.0));
}
