use crate::convert::clamped;
use crate::convert::int_bits;
use crate::convert::nat_bits;
use crate::number::lemma_number_is_bits;
use crate::number::number_of;
use crate::number::Number;
use crate::primitive::Primitive;
use crate::primitive::PrimitiveView;
use crate::table::Table;
use crate::value::Value;
use crate::value::ValueView;
use vstd::prelude::*;
use vstd::std_specs::convert::FromSpec;
use vstd::std_specs::convert::TryFromSpec;
use vstd::string::StringExecFns;

verus! {

/// The number nearest to a whole number, ties going to the even significand.
impl From<u8> for Number {
    fn from(v: u8) -> (r: Number) {
        let r = Number::from_u64(v as u64);
        proof {
            lemma_number_is_bits(r, number_of(nat_bits(v as nat)));
        }
        r
    }
}

impl vstd::std_specs::convert::FromSpecImpl<u8> for Number {
    open spec fn obeys_from_spec() -> bool {
        true
    }

    open spec fn from_spec(v: u8) -> Number {
        number_of(nat_bits(v as nat))
    }
}

/// The number nearest to a whole number, ties going to the even significand.
impl From<u16> for Number {
    fn from(v: u16) -> (r: Number) {
        let r = Number::from_u64(v as u64);
        proof {
            lemma_number_is_bits(r, number_of(nat_bits(v as nat)));
        }
        r
    }
}

impl vstd::std_specs::convert::FromSpecImpl<u16> for Number {
    open spec fn obeys_from_spec() -> bool {
        true
    }

    open spec fn from_spec(v: u16) -> Number {
        number_of(nat_bits(v as nat))
    }
}

/// The number nearest to a whole number, ties going to the even significand.
impl From<u32> for Number {
    fn from(v: u32) -> (r: Number) {
        let r = Number::from_u64(v as u64);
        proof {
            lemma_number_is_bits(r, number_of(nat_bits(v as nat)));
        }
        r
    }
}

impl vstd::std_specs::convert::FromSpecImpl<u32> for Number {
    open spec fn obeys_from_spec() -> bool {
        true
    }

    open spec fn from_spec(v: u32) -> Number {
        number_of(nat_bits(v as nat))
    }
}

/// The number nearest to a whole number, ties going to the even significand.
impl From<u64> for Number {
    fn from(v: u64) -> (r: Number) {
        let r = Number::from_u64(v as u64);
        proof {
            lemma_number_is_bits(r, number_of(nat_bits(v as nat)));
        }
        r
    }
}

impl vstd::std_specs::convert::FromSpecImpl<u64> for Number {
    open spec fn obeys_from_spec() -> bool {
        true
    }

    open spec fn from_spec(v: u64) -> Number {
        number_of(nat_bits(v as nat))
    }
}

/// The number nearest to a whole number, ties going to the even significand.
impl From<usize> for Number {
    fn from(v: usize) -> (r: Number) {
        let r = Number::from_u64(v as u64);
        proof {
            lemma_number_is_bits(r, number_of(nat_bits(v as nat)));
        }
        r
    }
}

impl vstd::std_specs::convert::FromSpecImpl<usize> for Number {
    open spec fn obeys_from_spec() -> bool {
        true
    }

    open spec fn from_spec(v: usize) -> Number {
        number_of(nat_bits(v as nat))
    }
}

/// The number nearest to a whole number, ties going to the even significand.
impl From<i8> for Number {
    fn from(v: i8) -> (r: Number) {
        let r = Number::from_i64(v as i64);
        proof {
            lemma_number_is_bits(r, number_of(int_bits(v as int)));
        }
        r
    }
}

impl vstd::std_specs::convert::FromSpecImpl<i8> for Number {
    open spec fn obeys_from_spec() -> bool {
        true
    }

    open spec fn from_spec(v: i8) -> Number {
        number_of(int_bits(v as int))
    }
}

/// The number nearest to a whole number, ties going to the even significand.
impl From<i16> for Number {
    fn from(v: i16) -> (r: Number) {
        let r = Number::from_i64(v as i64);
        proof {
            lemma_number_is_bits(r, number_of(int_bits(v as int)));
        }
        r
    }
}

impl vstd::std_specs::convert::FromSpecImpl<i16> for Number {
    open spec fn obeys_from_spec() -> bool {
        true
    }

    open spec fn from_spec(v: i16) -> Number {
        number_of(int_bits(v as int))
    }
}

/// The number nearest to a whole number, ties going to the even significand.
impl From<i32> for Number {
    fn from(v: i32) -> (r: Number) {
        let r = Number::from_i64(v as i64);
        proof {
            lemma_number_is_bits(r, number_of(int_bits(v as int)));
        }
        r
    }
}

impl vstd::std_specs::convert::FromSpecImpl<i32> for Number {
    open spec fn obeys_from_spec() -> bool {
        true
    }

    open spec fn from_spec(v: i32) -> Number {
        number_of(int_bits(v as int))
    }
}

/// The number nearest to a whole number, ties going to the even significand.
impl From<i64> for Number {
    fn from(v: i64) -> (r: Number) {
        let r = Number::from_i64(v as i64);
        proof {
            lemma_number_is_bits(r, number_of(int_bits(v as int)));
        }
        r
    }
}

impl vstd::std_specs::convert::FromSpecImpl<i64> for Number {
    open spec fn obeys_from_spec() -> bool {
        true
    }

    open spec fn from_spec(v: i64) -> Number {
        number_of(int_bits(v as int))
    }
}

/// The number nearest to a whole number, ties going to the even significand.
impl From<isize> for Number {
    fn from(v: isize) -> (r: Number) {
        let r = Number::from_i64(v as i64);
        proof {
            lemma_number_is_bits(r, number_of(int_bits(v as int)));
        }
        r
    }
}

impl vstd::std_specs::convert::FromSpecImpl<isize> for Number {
    open spec fn obeys_from_spec() -> bool {
        true
    }

    open spec fn from_spec(v: isize) -> Number {
        number_of(int_bits(v as int))
    }
}

/// Nil.
impl From<()> for Primitive {
    fn from(v: ()) -> (r: Primitive) {
        Primitive::Nil
    }
}

impl vstd::std_specs::convert::FromSpecImpl<()> for Primitive {
    open spec fn obeys_from_spec() -> bool {
        true
    }

    open spec fn from_spec(v: ()) -> Primitive {
        Primitive::Nil
    }
}

impl From<bool> for Primitive {
    fn from(v: bool) -> (r: Primitive) {
        Primitive::Bool(v)
    }
}

impl vstd::std_specs::convert::FromSpecImpl<bool> for Primitive {
    open spec fn obeys_from_spec() -> bool {
        true
    }

    open spec fn from_spec(v: bool) -> Primitive {
        Primitive::Bool(v)
    }
}

impl From<Number> for Primitive {
    fn from(v: Number) -> (r: Primitive) {
        Primitive::Number(v)
    }
}

impl vstd::std_specs::convert::FromSpecImpl<Number> for Primitive {
    open spec fn obeys_from_spec() -> bool {
        true
    }

    open spec fn from_spec(v: Number) -> Primitive {
        Primitive::Number(v)
    }
}

impl From<String> for Primitive {
    fn from(v: String) -> (r: Primitive) {
        Primitive::String(v)
    }
}

impl vstd::std_specs::convert::FromSpecImpl<String> for Primitive {
    open spec fn obeys_from_spec() -> bool {
        true
    }

    open spec fn from_spec(v: String) -> Primitive {
        Primitive::String(v)
    }
}

impl From<&str> for Primitive {
    fn from(v: &str) -> (r: Primitive)
        ensures
            r@ == PrimitiveView::String(v@),
    {
        Primitive::String(String::from_str(v))
    }
}

impl vstd::std_specs::convert::FromSpecImpl<&str> for Primitive {
    /// The string that comes of a string slice is known by its characters,
    /// which `from` states, not as a value.
    open spec fn obeys_from_spec() -> bool {
        false
    }

    open spec fn from_spec(v: &str) -> Primitive {
        arbitrary()
    }
}

impl From<u8> for Primitive {
    fn from(v: u8) -> (r: Primitive) {
        Primitive::Number(Number::from(v))
    }
}

impl vstd::std_specs::convert::FromSpecImpl<u8> for Primitive {
    open spec fn obeys_from_spec() -> bool {
        true
    }

    open spec fn from_spec(v: u8) -> Primitive {
        Primitive::Number(number_of(nat_bits(v as nat)))
    }
}

impl From<u16> for Primitive {
    fn from(v: u16) -> (r: Primitive) {
        Primitive::Number(Number::from(v))
    }
}

impl vstd::std_specs::convert::FromSpecImpl<u16> for Primitive {
    open spec fn obeys_from_spec() -> bool {
        true
    }

    open spec fn from_spec(v: u16) -> Primitive {
        Primitive::Number(number_of(nat_bits(v as nat)))
    }
}

impl From<u32> for Primitive {
    fn from(v: u32) -> (r: Primitive) {
        Primitive::Number(Number::from(v))
    }
}

impl vstd::std_specs::convert::FromSpecImpl<u32> for Primitive {
    open spec fn obeys_from_spec() -> bool {
        true
    }

    open spec fn from_spec(v: u32) -> Primitive {
        Primitive::Number(number_of(nat_bits(v as nat)))
    }
}

impl From<u64> for Primitive {
    fn from(v: u64) -> (r: Primitive) {
        Primitive::Number(Number::from(v))
    }
}

impl vstd::std_specs::convert::FromSpecImpl<u64> for Primitive {
    open spec fn obeys_from_spec() -> bool {
        true
    }

    open spec fn from_spec(v: u64) -> Primitive {
        Primitive::Number(number_of(nat_bits(v as nat)))
    }
}

impl From<usize> for Primitive {
    fn from(v: usize) -> (r: Primitive) {
        Primitive::Number(Number::from(v))
    }
}

impl vstd::std_specs::convert::FromSpecImpl<usize> for Primitive {
    open spec fn obeys_from_spec() -> bool {
        true
    }

    open spec fn from_spec(v: usize) -> Primitive {
        Primitive::Number(number_of(nat_bits(v as nat)))
    }
}

impl From<i8> for Primitive {
    fn from(v: i8) -> (r: Primitive) {
        Primitive::Number(Number::from(v))
    }
}

impl vstd::std_specs::convert::FromSpecImpl<i8> for Primitive {
    open spec fn obeys_from_spec() -> bool {
        true
    }

    open spec fn from_spec(v: i8) -> Primitive {
        Primitive::Number(number_of(int_bits(v as int)))
    }
}

impl From<i16> for Primitive {
    fn from(v: i16) -> (r: Primitive) {
        Primitive::Number(Number::from(v))
    }
}

impl vstd::std_specs::convert::FromSpecImpl<i16> for Primitive {
    open spec fn obeys_from_spec() -> bool {
        true
    }

    open spec fn from_spec(v: i16) -> Primitive {
        Primitive::Number(number_of(int_bits(v as int)))
    }
}

impl From<i32> for Primitive {
    fn from(v: i32) -> (r: Primitive) {
        Primitive::Number(Number::from(v))
    }
}

impl vstd::std_specs::convert::FromSpecImpl<i32> for Primitive {
    open spec fn obeys_from_spec() -> bool {
        true
    }

    open spec fn from_spec(v: i32) -> Primitive {
        Primitive::Number(number_of(int_bits(v as int)))
    }
}

impl From<i64> for Primitive {
    fn from(v: i64) -> (r: Primitive) {
        Primitive::Number(Number::from(v))
    }
}

impl vstd::std_specs::convert::FromSpecImpl<i64> for Primitive {
    open spec fn obeys_from_spec() -> bool {
        true
    }

    open spec fn from_spec(v: i64) -> Primitive {
        Primitive::Number(number_of(int_bits(v as int)))
    }
}

impl From<isize> for Primitive {
    fn from(v: isize) -> (r: Primitive) {
        Primitive::Number(Number::from(v))
    }
}

impl vstd::std_specs::convert::FromSpecImpl<isize> for Primitive {
    open spec fn obeys_from_spec() -> bool {
        true
    }

    open spec fn from_spec(v: isize) -> Primitive {
        Primitive::Number(number_of(int_bits(v as int)))
    }
}

impl From<Primitive> for Value {
    fn from(v: Primitive) -> (r: Value) {
        Value::Primitive(v)
    }
}

impl vstd::std_specs::convert::FromSpecImpl<Primitive> for Value {
    open spec fn obeys_from_spec() -> bool {
        true
    }

    open spec fn from_spec(v: Primitive) -> Value {
        Value::Primitive(v)
    }
}

impl From<Table> for Value {
    fn from(v: Table) -> (r: Value) {
        Value::Table(v)
    }
}

impl vstd::std_specs::convert::FromSpecImpl<Table> for Value {
    open spec fn obeys_from_spec() -> bool {
        true
    }

    open spec fn from_spec(v: Table) -> Value {
        Value::Table(v)
    }
}

impl From<()> for Value {
    fn from(v: ()) -> (r: Value) {
        Value::Primitive(Primitive::Nil)
    }
}

impl vstd::std_specs::convert::FromSpecImpl<()> for Value {
    open spec fn obeys_from_spec() -> bool {
        true
    }

    open spec fn from_spec(v: ()) -> Value {
        Value::Primitive(Primitive::Nil)
    }
}

impl From<bool> for Value {
    fn from(v: bool) -> (r: Value) {
        Value::Primitive(Primitive::Bool(v))
    }
}

impl vstd::std_specs::convert::FromSpecImpl<bool> for Value {
    open spec fn obeys_from_spec() -> bool {
        true
    }

    open spec fn from_spec(v: bool) -> Value {
        Value::Primitive(Primitive::Bool(v))
    }
}

impl From<Number> for Value {
    fn from(v: Number) -> (r: Value) {
        Value::Primitive(Primitive::Number(v))
    }
}

impl vstd::std_specs::convert::FromSpecImpl<Number> for Value {
    open spec fn obeys_from_spec() -> bool {
        true
    }

    open spec fn from_spec(v: Number) -> Value {
        Value::Primitive(Primitive::Number(v))
    }
}

impl From<String> for Value {
    fn from(v: String) -> (r: Value) {
        Value::Primitive(Primitive::String(v))
    }
}

impl vstd::std_specs::convert::FromSpecImpl<String> for Value {
    open spec fn obeys_from_spec() -> bool {
        true
    }

    open spec fn from_spec(v: String) -> Value {
        Value::Primitive(Primitive::String(v))
    }
}

impl From<&str> for Value {
    fn from(v: &str) -> (r: Value)
        ensures
            r@ == ValueView::Primitive(PrimitiveView::String(v@)),
    {
        Value::Primitive(Primitive::String(String::from_str(v)))
    }
}

impl vstd::std_specs::convert::FromSpecImpl<&str> for Value {
    /// The string that comes of a string slice is known by its characters,
    /// which `from` states, not as a value.
    open spec fn obeys_from_spec() -> bool {
        false
    }

    open spec fn from_spec(v: &str) -> Value {
        arbitrary()
    }
}

impl From<u8> for Value {
    fn from(v: u8) -> (r: Value) {
        Value::Primitive(Primitive::Number(Number::from(v)))
    }
}

impl vstd::std_specs::convert::FromSpecImpl<u8> for Value {
    open spec fn obeys_from_spec() -> bool {
        true
    }

    open spec fn from_spec(v: u8) -> Value {
        Value::Primitive(Primitive::Number(number_of(nat_bits(v as nat))))
    }
}

impl From<u16> for Value {
    fn from(v: u16) -> (r: Value) {
        Value::Primitive(Primitive::Number(Number::from(v)))
    }
}

impl vstd::std_specs::convert::FromSpecImpl<u16> for Value {
    open spec fn obeys_from_spec() -> bool {
        true
    }

    open spec fn from_spec(v: u16) -> Value {
        Value::Primitive(Primitive::Number(number_of(nat_bits(v as nat))))
    }
}

impl From<u32> for Value {
    fn from(v: u32) -> (r: Value) {
        Value::Primitive(Primitive::Number(Number::from(v)))
    }
}

impl vstd::std_specs::convert::FromSpecImpl<u32> for Value {
    open spec fn obeys_from_spec() -> bool {
        true
    }

    open spec fn from_spec(v: u32) -> Value {
        Value::Primitive(Primitive::Number(number_of(nat_bits(v as nat))))
    }
}

impl From<u64> for Value {
    fn from(v: u64) -> (r: Value) {
        Value::Primitive(Primitive::Number(Number::from(v)))
    }
}

impl vstd::std_specs::convert::FromSpecImpl<u64> for Value {
    open spec fn obeys_from_spec() -> bool {
        true
    }

    open spec fn from_spec(v: u64) -> Value {
        Value::Primitive(Primitive::Number(number_of(nat_bits(v as nat))))
    }
}

impl From<usize> for Value {
    fn from(v: usize) -> (r: Value) {
        Value::Primitive(Primitive::Number(Number::from(v)))
    }
}

impl vstd::std_specs::convert::FromSpecImpl<usize> for Value {
    open spec fn obeys_from_spec() -> bool {
        true
    }

    open spec fn from_spec(v: usize) -> Value {
        Value::Primitive(Primitive::Number(number_of(nat_bits(v as nat))))
    }
}

impl From<i8> for Value {
    fn from(v: i8) -> (r: Value) {
        Value::Primitive(Primitive::Number(Number::from(v)))
    }
}

impl vstd::std_specs::convert::FromSpecImpl<i8> for Value {
    open spec fn obeys_from_spec() -> bool {
        true
    }

    open spec fn from_spec(v: i8) -> Value {
        Value::Primitive(Primitive::Number(number_of(int_bits(v as int))))
    }
}

impl From<i16> for Value {
    fn from(v: i16) -> (r: Value) {
        Value::Primitive(Primitive::Number(Number::from(v)))
    }
}

impl vstd::std_specs::convert::FromSpecImpl<i16> for Value {
    open spec fn obeys_from_spec() -> bool {
        true
    }

    open spec fn from_spec(v: i16) -> Value {
        Value::Primitive(Primitive::Number(number_of(int_bits(v as int))))
    }
}

impl From<i32> for Value {
    fn from(v: i32) -> (r: Value) {
        Value::Primitive(Primitive::Number(Number::from(v)))
    }
}

impl vstd::std_specs::convert::FromSpecImpl<i32> for Value {
    open spec fn obeys_from_spec() -> bool {
        true
    }

    open spec fn from_spec(v: i32) -> Value {
        Value::Primitive(Primitive::Number(number_of(int_bits(v as int))))
    }
}

impl From<i64> for Value {
    fn from(v: i64) -> (r: Value) {
        Value::Primitive(Primitive::Number(Number::from(v)))
    }
}

impl vstd::std_specs::convert::FromSpecImpl<i64> for Value {
    open spec fn obeys_from_spec() -> bool {
        true
    }

    open spec fn from_spec(v: i64) -> Value {
        Value::Primitive(Primitive::Number(number_of(int_bits(v as int))))
    }
}

impl From<isize> for Value {
    fn from(v: isize) -> (r: Value) {
        Value::Primitive(Primitive::Number(Number::from(v)))
    }
}

impl vstd::std_specs::convert::FromSpecImpl<isize> for Value {
    open spec fn obeys_from_spec() -> bool {
        true
    }

    open spec fn from_spec(v: isize) -> Value {
        Value::Primitive(Primitive::Number(number_of(int_bits(v as int))))
    }
}

/// The primitive that a value is, if it is one.
impl TryFrom<Value> for Primitive {
    type Error = ();

    fn try_from(v: Value) -> (r: Result<Primitive, ()>) {
        match v {
            Value::Primitive(p) => Ok(p),
            _ => Err(()),
        }
    }
}

impl vstd::std_specs::convert::TryFromSpecImpl<Value> for Primitive {
    open spec fn obeys_try_from_spec() -> bool {
        true
    }

    open spec fn try_from_spec(v: Value) -> Result<Primitive, ()> {
        match v {
            Value::Primitive(p) => Ok(p),
            _ => Err(()),
        }
    }
}

/// The table that a value is, if it is one.
impl TryFrom<Value> for Table {
    type Error = ();

    fn try_from(v: Value) -> (r: Result<Table, ()>) {
        match v {
            Value::Table(t) => Ok(t),
            _ => Err(()),
        }
    }
}

impl vstd::std_specs::convert::TryFromSpecImpl<Value> for Table {
    open spec fn obeys_try_from_spec() -> bool {
        true
    }

    open spec fn try_from_spec(v: Value) -> Result<Table, ()> {
        match v {
            Value::Table(t) => Ok(t),
            _ => Err(()),
        }
    }
}

impl TryFrom<Primitive> for () {
    type Error = ();

    fn try_from(v: Primitive) -> (r: Result<(), ()>) {
        match v {
            Primitive::Nil => Ok(()),
            _ => Err(()),
        }
    }
}

impl vstd::std_specs::convert::TryFromSpecImpl<Primitive> for () {
    open spec fn obeys_try_from_spec() -> bool {
        true
    }

    open spec fn try_from_spec(v: Primitive) -> Result<(), ()> {
        match v {
            Primitive::Nil => Ok(()),
            _ => Err(()),
        }
    }
}

impl TryFrom<Primitive> for bool {
    type Error = ();

    fn try_from(v: Primitive) -> (r: Result<bool, ()>) {
        match v {
            Primitive::Bool(b) => Ok(b),
            _ => Err(()),
        }
    }
}

impl vstd::std_specs::convert::TryFromSpecImpl<Primitive> for bool {
    open spec fn obeys_try_from_spec() -> bool {
        true
    }

    open spec fn try_from_spec(v: Primitive) -> Result<bool, ()> {
        match v {
            Primitive::Bool(b) => Ok(b),
            _ => Err(()),
        }
    }
}

impl TryFrom<Primitive> for Number {
    type Error = ();

    fn try_from(v: Primitive) -> (r: Result<Number, ()>) {
        match v {
            Primitive::Number(n) => Ok(n),
            _ => Err(()),
        }
    }
}

impl vstd::std_specs::convert::TryFromSpecImpl<Primitive> for Number {
    open spec fn obeys_try_from_spec() -> bool {
        true
    }

    open spec fn try_from_spec(v: Primitive) -> Result<Number, ()> {
        match v {
            Primitive::Number(n) => Ok(n),
            _ => Err(()),
        }
    }
}

impl TryFrom<Primitive> for String {
    type Error = ();

    fn try_from(v: Primitive) -> (r: Result<String, ()>) {
        match v {
            Primitive::String(s) => Ok(s),
            _ => Err(()),
        }
    }
}

impl vstd::std_specs::convert::TryFromSpecImpl<Primitive> for String {
    open spec fn obeys_try_from_spec() -> bool {
        true
    }

    open spec fn try_from_spec(v: Primitive) -> Result<String, ()> {
        match v {
            Primitive::String(s) => Ok(s),
            _ => Err(()),
        }
    }
}

impl TryFrom<Value> for () {
    type Error = ();

    fn try_from(v: Value) -> (r: Result<(), ()>) {
        match v {
            Value::Primitive(Primitive::Nil) => Ok(()),
            _ => Err(()),
        }
    }
}

impl vstd::std_specs::convert::TryFromSpecImpl<Value> for () {
    open spec fn obeys_try_from_spec() -> bool {
        true
    }

    open spec fn try_from_spec(v: Value) -> Result<(), ()> {
        match v {
            Value::Primitive(Primitive::Nil) => Ok(()),
            _ => Err(()),
        }
    }
}

impl TryFrom<Value> for bool {
    type Error = ();

    fn try_from(v: Value) -> (r: Result<bool, ()>) {
        match v {
            Value::Primitive(Primitive::Bool(b)) => Ok(b),
            _ => Err(()),
        }
    }
}

impl vstd::std_specs::convert::TryFromSpecImpl<Value> for bool {
    open spec fn obeys_try_from_spec() -> bool {
        true
    }

    open spec fn try_from_spec(v: Value) -> Result<bool, ()> {
        match v {
            Value::Primitive(Primitive::Bool(b)) => Ok(b),
            _ => Err(()),
        }
    }
}

impl TryFrom<Value> for Number {
    type Error = ();

    fn try_from(v: Value) -> (r: Result<Number, ()>) {
        match v {
            Value::Primitive(Primitive::Number(n)) => Ok(n),
            _ => Err(()),
        }
    }
}

impl vstd::std_specs::convert::TryFromSpecImpl<Value> for Number {
    open spec fn obeys_try_from_spec() -> bool {
        true
    }

    open spec fn try_from_spec(v: Value) -> Result<Number, ()> {
        match v {
            Value::Primitive(Primitive::Number(n)) => Ok(n),
            _ => Err(()),
        }
    }
}

impl TryFrom<Value> for String {
    type Error = ();

    fn try_from(v: Value) -> (r: Result<String, ()>) {
        match v {
            Value::Primitive(Primitive::String(s)) => Ok(s),
            _ => Err(()),
        }
    }
}

impl vstd::std_specs::convert::TryFromSpecImpl<Value> for String {
    open spec fn obeys_try_from_spec() -> bool {
        true
    }

    open spec fn try_from_spec(v: Value) -> Result<String, ()> {
        match v {
            Value::Primitive(Primitive::String(s)) => Ok(s),
            _ => Err(()),
        }
    }
}

/// The whole number that a number converts into: 0 for NaN, otherwise
/// the number rounded towards zero, or the least or the greatest of the
/// type where that lies beyond it.
impl From<Number> for u8 {
    fn from(v: Number) -> (r: u8) {
        let whole: u64 = v.to_u64();
        if whole > u8::MAX as u64 {
            u8::MAX
        } else if whole < u8::MIN as u64 {
            u8::MIN
        } else {
            whole as u8
        }
    }
}

impl vstd::std_specs::convert::FromSpecImpl<Number> for u8 {
    open spec fn obeys_from_spec() -> bool {
        true
    }

    open spec fn from_spec(v: Number) -> u8 {
        clamped(v@, u8::MIN as int, u8::MAX as int) as u8
    }
}

impl TryFrom<Primitive> for u8 {
    type Error = ();

    fn try_from(v: Primitive) -> (r: Result<u8, ()>) {
        match v {
            Primitive::Number(n) => Ok(u8::from(n)),
            _ => Err(()),
        }
    }
}

impl vstd::std_specs::convert::TryFromSpecImpl<Primitive> for u8 {
    open spec fn obeys_try_from_spec() -> bool {
        true
    }

    open spec fn try_from_spec(v: Primitive) -> Result<u8, ()> {
        match v {
            Primitive::Number(n) => Ok(clamped(n@, u8::MIN as int, u8::MAX as int) as u8),
            _ => Err(()),
        }
    }
}

impl TryFrom<Value> for u8 {
    type Error = ();

    fn try_from(v: Value) -> (r: Result<u8, ()>) {
        match v {
            Value::Primitive(Primitive::Number(n)) => Ok(u8::from(n)),
            _ => Err(()),
        }
    }
}

impl vstd::std_specs::convert::TryFromSpecImpl<Value> for u8 {
    open spec fn obeys_try_from_spec() -> bool {
        true
    }

    open spec fn try_from_spec(v: Value) -> Result<u8, ()> {
        match v {
            Value::Primitive(Primitive::Number(n)) => Ok(
                clamped(n@, u8::MIN as int, u8::MAX as int) as u8,
            ),
            _ => Err(()),
        }
    }
}

/// The whole number that a number converts into: 0 for NaN, otherwise
/// the number rounded towards zero, or the least or the greatest of the
/// type where that lies beyond it.
impl From<Number> for u16 {
    fn from(v: Number) -> (r: u16) {
        let whole: u64 = v.to_u64();
        if whole > u16::MAX as u64 {
            u16::MAX
        } else if whole < u16::MIN as u64 {
            u16::MIN
        } else {
            whole as u16
        }
    }
}

impl vstd::std_specs::convert::FromSpecImpl<Number> for u16 {
    open spec fn obeys_from_spec() -> bool {
        true
    }

    open spec fn from_spec(v: Number) -> u16 {
        clamped(v@, u16::MIN as int, u16::MAX as int) as u16
    }
}

impl TryFrom<Primitive> for u16 {
    type Error = ();

    fn try_from(v: Primitive) -> (r: Result<u16, ()>) {
        match v {
            Primitive::Number(n) => Ok(u16::from(n)),
            _ => Err(()),
        }
    }
}

impl vstd::std_specs::convert::TryFromSpecImpl<Primitive> for u16 {
    open spec fn obeys_try_from_spec() -> bool {
        true
    }

    open spec fn try_from_spec(v: Primitive) -> Result<u16, ()> {
        match v {
            Primitive::Number(n) => Ok(clamped(n@, u16::MIN as int, u16::MAX as int) as u16),
            _ => Err(()),
        }
    }
}

impl TryFrom<Value> for u16 {
    type Error = ();

    fn try_from(v: Value) -> (r: Result<u16, ()>) {
        match v {
            Value::Primitive(Primitive::Number(n)) => Ok(u16::from(n)),
            _ => Err(()),
        }
    }
}

impl vstd::std_specs::convert::TryFromSpecImpl<Value> for u16 {
    open spec fn obeys_try_from_spec() -> bool {
        true
    }

    open spec fn try_from_spec(v: Value) -> Result<u16, ()> {
        match v {
            Value::Primitive(Primitive::Number(n)) => Ok(
                clamped(n@, u16::MIN as int, u16::MAX as int) as u16,
            ),
            _ => Err(()),
        }
    }
}

/// The whole number that a number converts into: 0 for NaN, otherwise
/// the number rounded towards zero, or the least or the greatest of the
/// type where that lies beyond it.
impl From<Number> for u32 {
    fn from(v: Number) -> (r: u32) {
        let whole: u64 = v.to_u64();
        if whole > u32::MAX as u64 {
            u32::MAX
        } else if whole < u32::MIN as u64 {
            u32::MIN
        } else {
            whole as u32
        }
    }
}

impl vstd::std_specs::convert::FromSpecImpl<Number> for u32 {
    open spec fn obeys_from_spec() -> bool {
        true
    }

    open spec fn from_spec(v: Number) -> u32 {
        clamped(v@, u32::MIN as int, u32::MAX as int) as u32
    }
}

impl TryFrom<Primitive> for u32 {
    type Error = ();

    fn try_from(v: Primitive) -> (r: Result<u32, ()>) {
        match v {
            Primitive::Number(n) => Ok(u32::from(n)),
            _ => Err(()),
        }
    }
}

impl vstd::std_specs::convert::TryFromSpecImpl<Primitive> for u32 {
    open spec fn obeys_try_from_spec() -> bool {
        true
    }

    open spec fn try_from_spec(v: Primitive) -> Result<u32, ()> {
        match v {
            Primitive::Number(n) => Ok(clamped(n@, u32::MIN as int, u32::MAX as int) as u32),
            _ => Err(()),
        }
    }
}

impl TryFrom<Value> for u32 {
    type Error = ();

    fn try_from(v: Value) -> (r: Result<u32, ()>) {
        match v {
            Value::Primitive(Primitive::Number(n)) => Ok(u32::from(n)),
            _ => Err(()),
        }
    }
}

impl vstd::std_specs::convert::TryFromSpecImpl<Value> for u32 {
    open spec fn obeys_try_from_spec() -> bool {
        true
    }

    open spec fn try_from_spec(v: Value) -> Result<u32, ()> {
        match v {
            Value::Primitive(Primitive::Number(n)) => Ok(
                clamped(n@, u32::MIN as int, u32::MAX as int) as u32,
            ),
            _ => Err(()),
        }
    }
}

/// The whole number that a number converts into: 0 for NaN, otherwise
/// the number rounded towards zero, or the least or the greatest of the
/// type where that lies beyond it.
impl From<Number> for u64 {
    fn from(v: Number) -> (r: u64) {
        v.to_u64()
    }
}

impl vstd::std_specs::convert::FromSpecImpl<Number> for u64 {
    open spec fn obeys_from_spec() -> bool {
        true
    }

    open spec fn from_spec(v: Number) -> u64 {
        clamped(v@, u64::MIN as int, u64::MAX as int) as u64
    }
}

impl TryFrom<Primitive> for u64 {
    type Error = ();

    fn try_from(v: Primitive) -> (r: Result<u64, ()>) {
        match v {
            Primitive::Number(n) => Ok(u64::from(n)),
            _ => Err(()),
        }
    }
}

impl vstd::std_specs::convert::TryFromSpecImpl<Primitive> for u64 {
    open spec fn obeys_try_from_spec() -> bool {
        true
    }

    open spec fn try_from_spec(v: Primitive) -> Result<u64, ()> {
        match v {
            Primitive::Number(n) => Ok(clamped(n@, u64::MIN as int, u64::MAX as int) as u64),
            _ => Err(()),
        }
    }
}

impl TryFrom<Value> for u64 {
    type Error = ();

    fn try_from(v: Value) -> (r: Result<u64, ()>) {
        match v {
            Value::Primitive(Primitive::Number(n)) => Ok(u64::from(n)),
            _ => Err(()),
        }
    }
}

impl vstd::std_specs::convert::TryFromSpecImpl<Value> for u64 {
    open spec fn obeys_try_from_spec() -> bool {
        true
    }

    open spec fn try_from_spec(v: Value) -> Result<u64, ()> {
        match v {
            Value::Primitive(Primitive::Number(n)) => Ok(
                clamped(n@, u64::MIN as int, u64::MAX as int) as u64,
            ),
            _ => Err(()),
        }
    }
}

/// The whole number that a number converts into: 0 for NaN, otherwise
/// the number rounded towards zero, or the least or the greatest of the
/// type where that lies beyond it.
impl From<Number> for usize {
    fn from(v: Number) -> (r: usize) {
        let whole: u64 = v.to_u64();
        if whole > usize::MAX as u64 {
            usize::MAX
        } else if whole < usize::MIN as u64 {
            usize::MIN
        } else {
            whole as usize
        }
    }
}

impl vstd::std_specs::convert::FromSpecImpl<Number> for usize {
    open spec fn obeys_from_spec() -> bool {
        true
    }

    open spec fn from_spec(v: Number) -> usize {
        clamped(v@, usize::MIN as int, usize::MAX as int) as usize
    }
}

impl TryFrom<Primitive> for usize {
    type Error = ();

    fn try_from(v: Primitive) -> (r: Result<usize, ()>) {
        match v {
            Primitive::Number(n) => Ok(usize::from(n)),
            _ => Err(()),
        }
    }
}

impl vstd::std_specs::convert::TryFromSpecImpl<Primitive> for usize {
    open spec fn obeys_try_from_spec() -> bool {
        true
    }

    open spec fn try_from_spec(v: Primitive) -> Result<usize, ()> {
        match v {
            Primitive::Number(n) => Ok(clamped(n@, usize::MIN as int, usize::MAX as int) as usize),
            _ => Err(()),
        }
    }
}

impl TryFrom<Value> for usize {
    type Error = ();

    fn try_from(v: Value) -> (r: Result<usize, ()>) {
        match v {
            Value::Primitive(Primitive::Number(n)) => Ok(usize::from(n)),
            _ => Err(()),
        }
    }
}

impl vstd::std_specs::convert::TryFromSpecImpl<Value> for usize {
    open spec fn obeys_try_from_spec() -> bool {
        true
    }

    open spec fn try_from_spec(v: Value) -> Result<usize, ()> {
        match v {
            Value::Primitive(Primitive::Number(n)) => Ok(
                clamped(n@, usize::MIN as int, usize::MAX as int) as usize,
            ),
            _ => Err(()),
        }
    }
}

/// The whole number that a number converts into: 0 for NaN, otherwise
/// the number rounded towards zero, or the least or the greatest of the
/// type where that lies beyond it.
impl From<Number> for i8 {
    fn from(v: Number) -> (r: i8) {
        let whole: i64 = v.to_i64();
        if whole > i8::MAX as i64 {
            i8::MAX
        } else if whole < i8::MIN as i64 {
            i8::MIN
        } else {
            whole as i8
        }
    }
}

impl vstd::std_specs::convert::FromSpecImpl<Number> for i8 {
    open spec fn obeys_from_spec() -> bool {
        true
    }

    open spec fn from_spec(v: Number) -> i8 {
        clamped(v@, i8::MIN as int, i8::MAX as int) as i8
    }
}

impl TryFrom<Primitive> for i8 {
    type Error = ();

    fn try_from(v: Primitive) -> (r: Result<i8, ()>) {
        match v {
            Primitive::Number(n) => Ok(i8::from(n)),
            _ => Err(()),
        }
    }
}

impl vstd::std_specs::convert::TryFromSpecImpl<Primitive> for i8 {
    open spec fn obeys_try_from_spec() -> bool {
        true
    }

    open spec fn try_from_spec(v: Primitive) -> Result<i8, ()> {
        match v {
            Primitive::Number(n) => Ok(clamped(n@, i8::MIN as int, i8::MAX as int) as i8),
            _ => Err(()),
        }
    }
}

impl TryFrom<Value> for i8 {
    type Error = ();

    fn try_from(v: Value) -> (r: Result<i8, ()>) {
        match v {
            Value::Primitive(Primitive::Number(n)) => Ok(i8::from(n)),
            _ => Err(()),
        }
    }
}

impl vstd::std_specs::convert::TryFromSpecImpl<Value> for i8 {
    open spec fn obeys_try_from_spec() -> bool {
        true
    }

    open spec fn try_from_spec(v: Value) -> Result<i8, ()> {
        match v {
            Value::Primitive(Primitive::Number(n)) => Ok(
                clamped(n@, i8::MIN as int, i8::MAX as int) as i8,
            ),
            _ => Err(()),
        }
    }
}

/// The whole number that a number converts into: 0 for NaN, otherwise
/// the number rounded towards zero, or the least or the greatest of the
/// type where that lies beyond it.
impl From<Number> for i16 {
    fn from(v: Number) -> (r: i16) {
        let whole: i64 = v.to_i64();
        if whole > i16::MAX as i64 {
            i16::MAX
        } else if whole < i16::MIN as i64 {
            i16::MIN
        } else {
            whole as i16
        }
    }
}

impl vstd::std_specs::convert::FromSpecImpl<Number> for i16 {
    open spec fn obeys_from_spec() -> bool {
        true
    }

    open spec fn from_spec(v: Number) -> i16 {
        clamped(v@, i16::MIN as int, i16::MAX as int) as i16
    }
}

impl TryFrom<Primitive> for i16 {
    type Error = ();

    fn try_from(v: Primitive) -> (r: Result<i16, ()>) {
        match v {
            Primitive::Number(n) => Ok(i16::from(n)),
            _ => Err(()),
        }
    }
}

impl vstd::std_specs::convert::TryFromSpecImpl<Primitive> for i16 {
    open spec fn obeys_try_from_spec() -> bool {
        true
    }

    open spec fn try_from_spec(v: Primitive) -> Result<i16, ()> {
        match v {
            Primitive::Number(n) => Ok(clamped(n@, i16::MIN as int, i16::MAX as int) as i16),
            _ => Err(()),
        }
    }
}

impl TryFrom<Value> for i16 {
    type Error = ();

    fn try_from(v: Value) -> (r: Result<i16, ()>) {
        match v {
            Value::Primitive(Primitive::Number(n)) => Ok(i16::from(n)),
            _ => Err(()),
        }
    }
}

impl vstd::std_specs::convert::TryFromSpecImpl<Value> for i16 {
    open spec fn obeys_try_from_spec() -> bool {
        true
    }

    open spec fn try_from_spec(v: Value) -> Result<i16, ()> {
        match v {
            Value::Primitive(Primitive::Number(n)) => Ok(
                clamped(n@, i16::MIN as int, i16::MAX as int) as i16,
            ),
            _ => Err(()),
        }
    }
}

/// The whole number that a number converts into: 0 for NaN, otherwise
/// the number rounded towards zero, or the least or the greatest of the
/// type where that lies beyond it.
impl From<Number> for i32 {
    fn from(v: Number) -> (r: i32) {
        let whole: i64 = v.to_i64();
        if whole > i32::MAX as i64 {
            i32::MAX
        } else if whole < i32::MIN as i64 {
            i32::MIN
        } else {
            whole as i32
        }
    }
}

impl vstd::std_specs::convert::FromSpecImpl<Number> for i32 {
    open spec fn obeys_from_spec() -> bool {
        true
    }

    open spec fn from_spec(v: Number) -> i32 {
        clamped(v@, i32::MIN as int, i32::MAX as int) as i32
    }
}

impl TryFrom<Primitive> for i32 {
    type Error = ();

    fn try_from(v: Primitive) -> (r: Result<i32, ()>) {
        match v {
            Primitive::Number(n) => Ok(i32::from(n)),
            _ => Err(()),
        }
    }
}

impl vstd::std_specs::convert::TryFromSpecImpl<Primitive> for i32 {
    open spec fn obeys_try_from_spec() -> bool {
        true
    }

    open spec fn try_from_spec(v: Primitive) -> Result<i32, ()> {
        match v {
            Primitive::Number(n) => Ok(clamped(n@, i32::MIN as int, i32::MAX as int) as i32),
            _ => Err(()),
        }
    }
}

impl TryFrom<Value> for i32 {
    type Error = ();

    fn try_from(v: Value) -> (r: Result<i32, ()>) {
        match v {
            Value::Primitive(Primitive::Number(n)) => Ok(i32::from(n)),
            _ => Err(()),
        }
    }
}

impl vstd::std_specs::convert::TryFromSpecImpl<Value> for i32 {
    open spec fn obeys_try_from_spec() -> bool {
        true
    }

    open spec fn try_from_spec(v: Value) -> Result<i32, ()> {
        match v {
            Value::Primitive(Primitive::Number(n)) => Ok(
                clamped(n@, i32::MIN as int, i32::MAX as int) as i32,
            ),
            _ => Err(()),
        }
    }
}

/// The whole number that a number converts into: 0 for NaN, otherwise
/// the number rounded towards zero, or the least or the greatest of the
/// type where that lies beyond it.
impl From<Number> for i64 {
    fn from(v: Number) -> (r: i64) {
        v.to_i64()
    }
}

impl vstd::std_specs::convert::FromSpecImpl<Number> for i64 {
    open spec fn obeys_from_spec() -> bool {
        true
    }

    open spec fn from_spec(v: Number) -> i64 {
        clamped(v@, i64::MIN as int, i64::MAX as int) as i64
    }
}

impl TryFrom<Primitive> for i64 {
    type Error = ();

    fn try_from(v: Primitive) -> (r: Result<i64, ()>) {
        match v {
            Primitive::Number(n) => Ok(i64::from(n)),
            _ => Err(()),
        }
    }
}

impl vstd::std_specs::convert::TryFromSpecImpl<Primitive> for i64 {
    open spec fn obeys_try_from_spec() -> bool {
        true
    }

    open spec fn try_from_spec(v: Primitive) -> Result<i64, ()> {
        match v {
            Primitive::Number(n) => Ok(clamped(n@, i64::MIN as int, i64::MAX as int) as i64),
            _ => Err(()),
        }
    }
}

impl TryFrom<Value> for i64 {
    type Error = ();

    fn try_from(v: Value) -> (r: Result<i64, ()>) {
        match v {
            Value::Primitive(Primitive::Number(n)) => Ok(i64::from(n)),
            _ => Err(()),
        }
    }
}

impl vstd::std_specs::convert::TryFromSpecImpl<Value> for i64 {
    open spec fn obeys_try_from_spec() -> bool {
        true
    }

    open spec fn try_from_spec(v: Value) -> Result<i64, ()> {
        match v {
            Value::Primitive(Primitive::Number(n)) => Ok(
                clamped(n@, i64::MIN as int, i64::MAX as int) as i64,
            ),
            _ => Err(()),
        }
    }
}

/// The whole number that a number converts into: 0 for NaN, otherwise
/// the number rounded towards zero, or the least or the greatest of the
/// type where that lies beyond it.
impl From<Number> for isize {
    fn from(v: Number) -> (r: isize) {
        let whole: i64 = v.to_i64();
        if whole > isize::MAX as i64 {
            isize::MAX
        } else if whole < isize::MIN as i64 {
            isize::MIN
        } else {
            whole as isize
        }
    }
}

impl vstd::std_specs::convert::FromSpecImpl<Number> for isize {
    open spec fn obeys_from_spec() -> bool {
        true
    }

    open spec fn from_spec(v: Number) -> isize {
        clamped(v@, isize::MIN as int, isize::MAX as int) as isize
    }
}

impl TryFrom<Primitive> for isize {
    type Error = ();

    fn try_from(v: Primitive) -> (r: Result<isize, ()>) {
        match v {
            Primitive::Number(n) => Ok(isize::from(n)),
            _ => Err(()),
        }
    }
}

impl vstd::std_specs::convert::TryFromSpecImpl<Primitive> for isize {
    open spec fn obeys_try_from_spec() -> bool {
        true
    }

    open spec fn try_from_spec(v: Primitive) -> Result<isize, ()> {
        match v {
            Primitive::Number(n) => Ok(clamped(n@, isize::MIN as int, isize::MAX as int) as isize),
            _ => Err(()),
        }
    }
}

impl TryFrom<Value> for isize {
    type Error = ();

    fn try_from(v: Value) -> (r: Result<isize, ()>) {
        match v {
            Value::Primitive(Primitive::Number(n)) => Ok(isize::from(n)),
            _ => Err(()),
        }
    }
}

impl vstd::std_specs::convert::TryFromSpecImpl<Value> for isize {
    open spec fn obeys_try_from_spec() -> bool {
        true
    }

    open spec fn try_from_spec(v: Value) -> Result<isize, ()> {
        match v {
            Value::Primitive(Primitive::Number(n)) => Ok(
                clamped(n@, isize::MIN as int, isize::MAX as int) as isize,
            ),
            _ => Err(()),
        }
    }
}

/// The number nearest to a whole number, ties going to the even significand.
impl From<u128> for Number {
    fn from(v: u128) -> (r: Number) {
        let r = Number::from_u128(v);
        proof {
            lemma_number_is_bits(r, number_of(nat_bits(v as nat)));
        }
        r
    }
}

impl vstd::std_specs::convert::FromSpecImpl<u128> for Number {
    open spec fn obeys_from_spec() -> bool {
        true
    }

    open spec fn from_spec(v: u128) -> Number {
        number_of(nat_bits(v as nat))
    }
}

/// The number nearest to a whole number, ties going to the even significand.
impl From<i128> for Number {
    fn from(v: i128) -> (r: Number) {
        let r = Number::from_i128(v);
        proof {
            lemma_number_is_bits(r, number_of(int_bits(v as int)));
        }
        r
    }
}

impl vstd::std_specs::convert::FromSpecImpl<i128> for Number {
    open spec fn obeys_from_spec() -> bool {
        true
    }

    open spec fn from_spec(v: i128) -> Number {
        number_of(int_bits(v as int))
    }
}

/// The whole number that a number converts into: 0 for NaN, otherwise
/// the number rounded towards zero, or the least or the greatest of the
/// type where that lies beyond it.
impl From<Number> for u128 {
    fn from(v: Number) -> (r: u128) {
        v.to_u128()
    }
}

impl vstd::std_specs::convert::FromSpecImpl<Number> for u128 {
    open spec fn obeys_from_spec() -> bool {
        true
    }

    open spec fn from_spec(v: Number) -> u128 {
        clamped(v@, u128::MIN as int, u128::MAX as int) as u128
    }
}

/// The whole number that a number converts into: 0 for NaN, otherwise
/// the number rounded towards zero, or the least or the greatest of the
/// type where that lies beyond it.
impl From<Number> for i128 {
    fn from(v: Number) -> (r: i128) {
        v.to_i128()
    }
}

impl vstd::std_specs::convert::FromSpecImpl<Number> for i128 {
    open spec fn obeys_from_spec() -> bool {
        true
    }

    open spec fn from_spec(v: Number) -> i128 {
        clamped(v@, i128::MIN as int, i128::MAX as int) as i128
    }
}

impl Value {
    /// The value that something converts into: what `Value::from` makes
    /// of it.
    pub fn new<T>(v: T) -> (r: Value) where Value: From<T>
        ensures
            call_ensures(<Value as From<T>>::from, (v,), r),
            <Value as FromSpec<T>>::obeys_from_spec() ==> r == <Value as FromSpec<T>>::from_spec(v),
    {
        Value::from(v)
    }

    /// What this value converts into, if it does: what `T::try_from` makes
    /// of it, where that is no failure.
    pub fn get_value<T: TryFrom<Value>>(self) -> (r: Option<T>)
        ensures
            <T as TryFromSpec<Value>>::obeys_try_from_spec() ==> r == (match <T as TryFromSpec<
                Value,
            >>::try_from_spec(self) {
                Ok(t) => Some(t),
                Err(_) => None,
            }),
            exists|converted: Result<T, T::Error>| #[trigger]
                call_ensures(<T as TryFrom<Value>>::try_from, (self,), converted) && r == (
                match converted {
                    Ok(t) => Some(t),
                    Err(_) => None,
                }),
    {
        match T::try_from(self) {
            Ok(t) => Some(t),
            Err(_) => None,
        }
    }
}

} // verus!
