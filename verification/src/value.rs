use crate::primitive::primitive_type;
use crate::primitive::Primitive;
use crate::primitive::PrimitiveView;
use crate::table::table_view;
use crate::table::Table;
use crate::types::Type;
use crate::types::TypeOf;
use vstd::prelude::*;

verus! {

/// Anything a script can hold: a primitive, a table, or the address of a
/// function in the instruction sequence.
#[derive(Debug)]
pub enum Value {
    Primitive(Primitive),
    Table(Table),
    FunctionPointer(usize),
}

/// What a value is: a primitive, the bindings of a table, or an address.
pub enum ValueView {
    Primitive(PrimitiveView),
    Table(Map<PrimitiveView, ValueView>),
    FunctionPointer(usize),
}

impl ValueView {
    /// The nil value.
    pub open spec fn nil() -> ValueView {
        ValueView::Primitive(PrimitiveView::Nil)
    }

    /// Whether this is the nil value.
    pub open spec fn is_nil(self) -> bool {
        self == ValueView::nil()
    }
}

/// What a value is, tables taken by their bindings.
pub open spec fn value_view(v: Value) -> ValueView
    decreases v, 1nat,
{
    match v {
        Value::Primitive(p) => ValueView::Primitive(p@),
        Value::Table(t) => ValueView::Table(table_view(t)),
        Value::FunctionPointer(address) => ValueView::FunctionPointer(address),
    }
}

impl View for Value {
    type V = ValueView;

    open spec fn view(&self) -> ValueView {
        value_view(*self)
    }
}

/// The bindings of a table that count when it is walked or compared: those
/// to a value other than nil.
pub open spec fn live(m: Map<PrimitiveView, ValueView>) -> Map<PrimitiveView, ValueView> {
    Map::new(|k: PrimitiveView| m.contains_key(k) && !m[k].is_nil(), |k: PrimitiveView| m[k])
}

/// Whether a key is bound to a value other than nil.
pub open spec fn is_live(m: Map<PrimitiveView, ValueView>, k: PrimitiveView) -> bool {
    m.contains_key(k) && !m[k].is_nil()
}

/// Whether two values are equal.
///
/// Primitives are equal when they have the same key, function pointers when
/// they hold the same address. Two tables, each of which binds finitely
/// many keys, are equal when they have the same live keys and bind each of
/// them to equal values: a key bound to nil is as good as a key not bound.
pub open spec fn value_eq(a: ValueView, b: ValueView) -> bool
    decreases a,
{
    match (a, b) {
        (ValueView::Primitive(p), ValueView::Primitive(q)) => p.key() == q.key(),
        (ValueView::Table(m), ValueView::Table(n)) => m.dom().finite() && n.dom().finite()
            && forall|k: PrimitiveView|
            #![trigger m.contains_key(k)]
            #![trigger n.contains_key(k)]
            is_live(m, k) == is_live(n, k) && (m.contains_key(k) && !m[k].is_nil() ==> value_eq(
                m[k],
                n[k],
            )),
        (ValueView::FunctionPointer(x), ValueView::FunctionPointer(y)) => x == y,
        _ => false,
    }
}

/// What equality of values says of two tables: they have the same live
/// keys, and bind each of them to equal values.
pub proof fn lemma_table_eq(m: Map<PrimitiveView, ValueView>, n: Map<PrimitiveView, ValueView>)
    requires
        m.dom().finite(),
        n.dom().finite(),
    ensures
        value_eq(ValueView::Table(m), ValueView::Table(n)) <==> forall|k: PrimitiveView|
            #![trigger m.contains_key(k)]
            #![trigger n.contains_key(k)]
            is_live(m, k) == is_live(n, k) && (is_live(m, k) ==> value_eq(m[k], n[k])),
{
}

/// Only nil equals nil, and nil equals only nil.
pub proof fn lemma_nothing_else_equals_nil(v: ValueView)
    ensures
        value_eq(v, ValueView::nil()) <==> v.is_nil(),
        value_eq(ValueView::nil(), v) <==> v.is_nil(),
{
}

/// The script-level type of a value.
pub open spec fn value_type(v: ValueView) -> Type {
    match v {
        ValueView::Primitive(p) => primitive_type(p),
        ValueView::Table(_) => Type::Table,
        ValueView::FunctionPointer(_) => Type::Function,
    }
}

impl Value {
    /// The nil value.
    pub fn nil() -> (v: Value)
        ensures
            v@ == ValueView::nil(),
    {
        Value::Primitive(Primitive::Nil)
    }

    /// An empty table, as a value.
    pub fn table() -> (v: Value)
        ensures
            v@ == ValueView::Table(Map::empty()),
    {
        Value::Table(Table::new())
    }

    /// Whether this is nil.
    pub fn is_nil(&self) -> (r: bool)
        ensures
            r == self@.is_nil(),
    {
        match self {
            Value::Primitive(Primitive::Nil) => true,
            _ => false,
        }
    }

    /// Whether this is a truth value.
    pub fn is_bool(&self) -> (r: bool)
        ensures
            r == (self@ matches ValueView::Primitive(PrimitiveView::Bool(_))),
    {
        match self {
            Value::Primitive(Primitive::Bool(_)) => true,
            _ => false,
        }
    }

    /// Whether this is a number.
    pub fn is_number(&self) -> (r: bool)
        ensures
            r == (self@ matches ValueView::Primitive(PrimitiveView::Number(_))),
    {
        match self {
            Value::Primitive(Primitive::Number(_)) => true,
            _ => false,
        }
    }

    /// Whether this is a string.
    pub fn is_string(&self) -> (r: bool)
        ensures
            r == (self@ matches ValueView::Primitive(PrimitiveView::String(_))),
    {
        match self {
            Value::Primitive(Primitive::String(_)) => true,
            _ => false,
        }
    }

    /// Whether this is a primitive.
    pub fn is_primitive(&self) -> (r: bool)
        ensures
            r == (self@ is Primitive),
    {
        match self {
            Value::Primitive(_) => true,
            _ => false,
        }
    }

    /// Whether this is a table.
    pub fn is_table(&self) -> (r: bool)
        ensures
            r == (self@ is Table),
    {
        match self {
            Value::Table(_) => true,
            _ => false,
        }
    }

    /// The primitive that this value is, if it is one.
    pub fn get_primitive(self) -> (r: Option<Primitive>)
        ensures
            match r {
                Some(p) => self@ == ValueView::Primitive(p@),
                None => !(self@ is Primitive),
            },
    {
        match self {
            Value::Primitive(p) => Some(p),
            _ => None,
        }
    }

    /// The table that this value is, if it is one.
    pub fn get_table(self) -> (r: Option<Table>)
        ensures
            match r {
                Some(t) => self@ == ValueView::Table(t@),
                None => !(self@ is Table),
            },
    {
        match self {
            Value::Table(t) => Some(t),
            _ => None,
        }
    }
}

impl Value {
    /// Whether this value equals the other.
    pub fn equals(&self, other: &Value) -> (r: bool)
        ensures
            r == value_eq(self@, other@),
        decreases *self,
    {
        match (self, other) {
            (Value::Primitive(p), Value::Primitive(q)) => p.same(q),
            (Value::Table(t), Value::Table(u)) => t.equals(u),
            (Value::FunctionPointer(x), Value::FunctionPointer(y)) => *x == *y,
            _ => false,
        }
    }
}

impl Value {
    /// A value that is what this one is.
    pub fn copy(&self) -> (v: Value)
        ensures
            v@ == self@,
        decreases *self,
    {
        match self {
            Value::Primitive(p) => Value::Primitive(p.clone()),
            Value::Table(t) => Value::Table(t.copy()),
            Value::FunctionPointer(address) => Value::FunctionPointer(*address),
        }
    }
}

impl Clone for Value {
    fn clone(&self) -> (v: Value)
        ensures
            v@ == self@,
    {
        self.copy()
    }
}

impl PartialEq for Value {
    fn eq(&self, other: &Value) -> (r: bool) {
        self.equals(other)
    }
}

impl vstd::std_specs::cmp::PartialEqSpecImpl for Value {
    open spec fn obeys_eq_spec() -> bool {
        true
    }

    open spec fn eq_spec(&self, other: &Value) -> bool {
        value_eq(self@, other@)
    }
}

impl Eq for Value {

}

impl TypeOf for Value {
    fn type_of(&self) -> (t: Type)
        ensures
            t == value_type(self@),
    {
        match self {
            Value::Primitive(p) => p.type_of(),
            Value::Table(_) => Type::Table,
            Value::FunctionPointer(_) => Type::Function,
        }
    }
}

} // verus!
