use mx::Number;
use mx::Primitive;
use std::cmp::Ordering;
use std::collections::hash_map::DefaultHasher;
use std::hash::Hash;
use std::hash::Hasher;

fn text(s: &str) -> Primitive {
    Primitive::String(s.to_string())
}

fn number(x: f64) -> Primitive {
    Primitive::Number(Number::new(x.to_bits()))
}

fn digest(p: &Primitive) -> u64 {
    let mut hasher = DefaultHasher::new();
    p.hash(&mut hasher);
    hasher.finish()
}

#[test]
fn kinds_are_ordered() {
    let ascending = vec![
        Primitive::Nil,
        Primitive::Bool(false),
        Primitive::Bool(true),
        number(f64::NAN),
        number(f64::NEG_INFINITY),
        number(-1.0),
        number(0.0),
        number(2.0),
        number(f64::INFINITY),
        text(""),
        text("a"),
        text("ab"),
        text("b"),
        text("ä"),
    ];
    for i in 0..ascending.len() {
        for j in 0..ascending.len() {
            assert_eq!(
                ascending[i].partial_cmp(&ascending[j]),
                Some(i.cmp(&j)),
                "{:?} and {:?}",
                ascending[i],
                ascending[j]
            );
            assert_eq!(ascending[i] == ascending[j], i == j);
        }
    }
}

#[test]
fn strings_are_ordered_as_the_standard_library_orders_them() {
    let words = ["", "a", "A", "abba", "abbb", "abb", "zz", "ääkköset", "\u{10000}", "\u{ffff}"];
    for a in words {
        for b in words {
            assert_eq!(text(a).partial_cmp(&text(b)), Some(a.cmp(b)));
        }
    }
    assert_eq!(text("abba").partial_cmp(&text("baab")), Some(Ordering::Less));
    assert_eq!(text("b").partial_cmp(&text("abba")), Some(Ordering::Greater));
    assert!(text("a") < text("b"));
}

#[test]
fn equal_primitives_hash_alike() {
    assert_eq!(digest(&number(0.0)), digest(&number(-0.0)));
    assert_eq!(digest(&number(f64::NAN)), digest(&number(-f64::NAN)));
    assert_eq!(digest(&text("a")), digest(&text("a")));
    assert_ne!(digest(&text("a")), digest(&text("b")));
    assert_ne!(digest(&Primitive::Nil), digest(&Primitive::Bool(false)));
}

#[test]
fn primitives_are_their_own_keys() {
    assert_eq!(number(-0.0).into_key(), number(0.0));
    assert_eq!(
        match number(-0.0).into_key() {
            Primitive::Number(n) => n.to_bits(),
            _ => 1,
        },
        0
    );
    assert_eq!(text("a").into_key(), text("a"));
    assert!(text("a").same(&text("a")));
    assert!(!text("a").same(&number(1.0)));
    assert!(number(f64::NAN).same(&number(-f64::NAN)));
    assert_eq!(text("a").clone(), text("a"));
}
