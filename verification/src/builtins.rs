use crate::number::Number;
use crate::primitive::Primitive;
use crate::primitive::PrimitiveView;
use crate::value::ValueView;
use crate::semantics::truthy;
use crate::value::Value;
use vstd::prelude::*;
use vstd::string::StringExecFns;

verus! {

/// Whether a value counts as true.
pub fn bool(value: &Value) -> (r: bool)
    ensures
        r == truthy(value@),
{
    match value {
        Value::Primitive(Primitive::Nil) => false,
        Value::Primitive(Primitive::Bool(b)) => *b,
        Value::Primitive(Primitive::Number(n)) => !n.is_zero(),
        Value::Primitive(Primitive::String(s)) => !s.as_str().is_empty(),
        Value::Table(t) => t.has_live(),
        Value::FunctionPointer(_) => true,
    }
}

/// The text of a value that is no number: `nil`, `true` or `false`, the
/// string itself, `{table}` for a table and `<function>` for a function.
pub open spec fn text_of(v: ValueView) -> Seq<char> {
    match v {
        ValueView::Primitive(PrimitiveView::Nil) => "nil"@,
        ValueView::Primitive(PrimitiveView::Bool(b)) => if b {
            "true"@
        } else {
            "false"@
        },
        ValueView::Primitive(PrimitiveView::String(s)) => s,
        ValueView::Table(_) => "{table}"@,
        ValueView::FunctionPointer(_) => "<function>"@,
        ValueView::Primitive(PrimitiveView::Number(_)) => Seq::empty(),
    }
}

/// The text of a value. The text of a number is what `number` makes of it;
/// that of any other value is `text_of` it.
pub fn str<F: FnOnce(Number) -> String>(value: Value, number: F) -> (text: String)
    requires
        forall|n: Number| call_requires(number, (n,)),
    ensures
        match value {
            Value::Primitive(Primitive::Number(n)) => call_ensures(number, (n,), text),
            _ => text@ == text_of(value@),
        },
{
    match value {
        Value::Primitive(Primitive::Nil) => String::from_str("nil"),
        Value::Primitive(Primitive::Bool(b)) => if b {
            String::from_str("true")
        } else {
            String::from_str("false")
        },
        Value::Primitive(Primitive::Number(n)) => number(n),
        Value::Primitive(Primitive::String(s)) => s,
        Value::Table(_) => String::from_str("{table}"),
        Value::FunctionPointer(_) => String::from_str("<function>"),
    }
}

} // verus!
