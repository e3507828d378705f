use mx::Number;
use std::cmp::Ordering;
use std::collections::hash_map::DefaultHasher;
use std::hash::Hash;
use std::hash::Hasher;

fn of(x: f64) -> Number {
    Number::new(x.to_bits())
}

fn hash_of(n: &Number) -> u64 {
    let mut hasher = DefaultHasher::new();
    n.hash(&mut hasher);
    hasher.finish()
}

#[test]
fn bits_are_kept() {
    assert_eq!(of(1.5).to_bits(), 0x3ff8_0000_0000_0000);
    assert_eq!(Number::new(0x4000_0000_0000_0000).to_bits(), (2.0f64).to_bits());
}

#[test]
fn nan_is_told_by_its_bits() {
    assert!(of(f64::NAN).is_nan());
    assert!(of(-f64::NAN).is_nan());
    assert!(Number::new(0x7ff0_0000_0000_0001).is_nan());
    assert!(!of(f64::INFINITY).is_nan());
    assert!(!of(f64::NEG_INFINITY).is_nan());
    assert!(!of(0.0).is_nan());
    assert!(!of(f64::MAX).is_nan());
}

#[test]
fn zero_is_told_by_its_bits() {
    assert!(of(0.0).is_zero());
    assert!(of(-0.0).is_zero());
    assert!(!of(f64::MIN_POSITIVE).is_zero());
    assert!(!of(f64::NAN).is_zero());
}

#[test]
fn nan_equals_nan() {
    assert_eq!(of(f64::NAN), of(f64::NAN));
    assert_eq!(of(f64::NAN), of(-f64::NAN));
    assert_eq!(of(f64::NAN), Number::new(0x7ff0_0000_0000_0001));
    assert_eq!(of(f64::NAN).total_order(&of(-f64::NAN)), Ordering::Equal);
}

#[test]
fn nan_is_less_than_every_other_number() {
    for x in [
        f64::NEG_INFINITY,
        f64::MIN,
        -1.0,
        -0.0,
        0.0,
        1e-300,
        1.0,
        f64::MAX,
        f64::INFINITY,
    ] {
        assert_eq!(of(f64::NAN).total_order(&of(x)), Ordering::Less);
        assert_eq!(of(x).total_order(&of(f64::NAN)), Ordering::Greater);
        assert!(of(f64::NAN) < of(x));
        assert!(of(x) > of(f64::NAN));
        assert_ne!(of(f64::NAN), of(x));
    }
}

#[test]
fn numbers_are_ordered_as_floats_are() {
    let xs = [
        f64::NEG_INFINITY,
        f64::MIN,
        -2.5,
        -1.0,
        -f64::MIN_POSITIVE,
        -0.0,
        0.0,
        f64::MIN_POSITIVE,
        0.1,
        1.0,
        2.5,
        f64::MAX,
        f64::INFINITY,
    ];
    for a in xs {
        for b in xs {
            assert_eq!(of(a).partial_cmp(&of(b)), a.partial_cmp(&b));
            assert_eq!(of(a) == of(b), a == b);
            assert_eq!(of(a) < of(b), a < b);
        }
    }
}

#[test]
fn the_zeros_are_equal() {
    assert_eq!(of(0.0), of(-0.0));
    assert_eq!(of(0.0).total_order(&of(-0.0)), Ordering::Equal);
}

#[test]
fn equal_numbers_hash_alike() {
    assert_eq!(hash_of(&of(f64::NAN)), hash_of(&of(-f64::NAN)));
    assert_eq!(hash_of(&of(f64::NAN)), hash_of(&Number::new(0x7ff0_0000_0000_0001)));
    assert_eq!(hash_of(&of(0.0)), hash_of(&of(-0.0)));
    assert_eq!(hash_of(&of(1.0)), hash_of(&of(1.0)));
    assert_ne!(hash_of(&of(1.0)), hash_of(&of(2.0)));
}

#[test]
fn hash_keys() {
    assert_eq!(of(f64::NAN).hash_key(), f64::MIN.to_bits());
    assert_eq!(of(-0.0).hash_key(), 0);
    assert_eq!(of(0.0).hash_key(), 0);
    assert_eq!(of(3.25).hash_key(), (3.25f64).to_bits());
}

#[test]
fn normalized_numbers() {
    assert_eq!(of(-0.0).normalized().to_bits(), 0);
    assert_eq!(of(-f64::NAN).normalized().to_bits(), 0x7ff8_0000_0000_0000);
    assert_eq!(of(-3.5).normalized().to_bits(), (-3.5f64).to_bits());
}

#[test]
fn whole_numbers_become_the_floats_they_are() {
    for n in [
        0u64,
        1,
        2,
        3,
        7,
        255,
        256,
        1000,
        4096,
        1 << 31,
        (1 << 52) - 1,
        1 << 52,
        (1 << 53) - 1,
        1 << 53,
    ] {
        assert_eq!(Number::from_u64(n).to_bits(), (n as f64).to_bits());
    }
}

#[test]
fn great_whole_numbers_are_rounded_half_to_even() {
    let two53: u64 = 1 << 53;
    for n in [
        two53 + 1,
        two53 + 2,
        two53 + 3,
        two53 + 4,
        two53 + 5,
        (1 << 54) + 2,
        (1 << 54) + 6,
        (1 << 54) + 7,
        (1 << 60) + 127,
        (1 << 60) + 128,
        (1 << 60) + 129,
        (1 << 60) + 384,
        u64::MAX - 1024,
        u64::MAX - 1023,
        u64::MAX,
    ] {
        assert_eq!(Number::from_u64(n).to_bits(), (n as f64).to_bits());
    }
    assert_eq!(Number::from_u64(two53 + 1).to_bits(), (two53 as f64).to_bits());
    assert_eq!(Number::from_u64(two53 + 3).to_bits(), ((two53 + 4) as f64).to_bits());
}

#[test]
fn negative_whole_numbers() {
    for n in [
        0i64,
        -1,
        1,
        -2,
        -255,
        i64::MIN,
        i64::MAX,
        -(1 << 53),
        -(1 << 53) - 1,
        -(1 << 53) - 3,
    ] {
        assert_eq!(Number::from_i64(n).to_bits(), (n as f64).to_bits());
    }
    assert_eq!(Number::from(-7i32).to_bits(), (-7.0f64).to_bits());
    assert_eq!(Number::from(7u8).to_bits(), (7.0f64).to_bits());
    assert_eq!(Number::from_usize(12).to_bits(), (12.0f64).to_bits());
}

#[test]
fn parse_reads_or_gives_nan() {
    let read = |s: &str| s.parse::<f64>().ok().map(f64::to_bits);
    assert_eq!(Number::parse("1.5", read).to_bits(), (1.5f64).to_bits());
    assert!(Number::parse("abba", read).is_nan());
    assert_eq!(Number::parse("abba", read).to_bits(), 0x7ff8_0000_0000_0000);
}

#[test]
fn numbers_become_whole_numbers_as_floats_do() {
    let xs = [
        0.0,
        -0.0,
        0.5,
        -0.5,
        0.999,
        1.0,
        -1.0,
        1.5,
        -1.5,
        2.5,
        127.0,
        127.9,
        128.0,
        -128.0,
        -128.9,
        -129.0,
        255.9,
        256.0,
        65535.5,
        -32768.5,
        2147483647.0,
        2147483648.0,
        -2147483648.0,
        -2147483649.0,
        4294967295.0,
        4294967296.0,
        9007199254740991.0,
        9007199254740992.0,
        9223372036854775807.0,
        -9223372036854775808.0,
        -9223372036854777856.0,
        18446744073709549568.0,
        18446744073709551615.0,
        1e19,
        1e30,
        -1e30,
        1e300,
        5e-324,
        -5e-324,
        f64::MIN_POSITIVE,
        f64::MAX,
        f64::MIN,
        f64::INFINITY,
        f64::NEG_INFINITY,
        f64::NAN,
        -f64::NAN,
    ];
    for x in xs {
        let n = of(x);
        assert_eq!(n.to_i64(), x as i64, "{}", x);
        assert_eq!(n.to_u64(), x as u64, "{}", x);
        assert_eq!(u8::from(n), x as u8, "{}", x);
        assert_eq!(u16::from(n), x as u16, "{}", x);
        assert_eq!(u32::from(n), x as u32, "{}", x);
        assert_eq!(u64::from(n), x as u64, "{}", x);
        assert_eq!(usize::from(n), x as usize, "{}", x);
        assert_eq!(i8::from(n), x as i8, "{}", x);
        assert_eq!(i16::from(n), x as i16, "{}", x);
        assert_eq!(i32::from(n), x as i32, "{}", x);
        assert_eq!(i64::from(n), x as i64, "{}", x);
        assert_eq!(isize::from(n), x as isize, "{}", x);
        assert_eq!(u128::from(n), x as u128, "{}", x);
        assert_eq!(i128::from(n), x as i128, "{}", x);
        assert_eq!(n.to_u128(), x as u128, "{}", x);
        assert_eq!(n.to_i128(), x as i128, "{}", x);
    }
    for x in [
        340282366920938463463374607431768211455.0,
        340282366920938425684442744474606501888.0,
        170141183460469231731687303715884105727.0,
        -170141183460469231731687303715884105728.0,
        -170141183460469269510619166673045815296.0,
        1e38,
        -1e38,
        1e39,
        3.5e20,
    ] {
        let n = of(x);
        assert_eq!(n.to_u128(), x as u128, "{}", x);
        assert_eq!(n.to_i128(), x as i128, "{}", x);
        assert_eq!(n.to_u64(), x as u64, "{}", x);
        assert_eq!(n.to_i64(), x as i64, "{}", x);
    }
}

#[test]
fn wide_whole_numbers_become_the_floats_nearest_to_them() {
    let two64: u128 = 1 << 64;
    for n in [
        0u128,
        1,
        (1 << 53) + 1,
        u64::MAX as u128,
        two64,
        two64 + 1,
        two64 + 2048,
        two64 + 2049,
        two64 + 4096,
        two64 + 6144,
        (1 << 100) + (1 << 47),
        (1 << 100) + (1 << 47) + 1,
        (1 << 100) + (3 << 47),
        (1 << 127) - 1,
        1 << 127,
        u128::MAX - (1 << 74),
        u128::MAX - (1 << 74) + 1,
        u128::MAX,
    ] {
        assert_eq!(Number::from_u128(n).to_bits(), (n as f64).to_bits(), "{}", n);
        assert_eq!(Number::from(n).to_bits(), (n as f64).to_bits(), "{}", n);
    }
    for n in [
        0i128,
        -1,
        1,
        i128::MIN,
        i128::MAX,
        i128::MIN + 1,
        -(1 << 64) - 2049,
        -(1 << 100) - (1 << 47),
        (1 << 90) + 12345,
    ] {
        assert_eq!(Number::from_i128(n).to_bits(), (n as f64).to_bits(), "{}", n);
        assert_eq!(Number::from(n).to_bits(), (n as f64).to_bits(), "{}", n);
    }
}
