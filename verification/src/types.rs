use vstd::prelude::*;

verus! {

/// The type of a value, as scripts see it.
#[derive(Debug, Clone, Copy, PartialEq, Eq, Structural)]
pub enum Type {
    Nil,
    Bool,
    Number,
    String,
    Table,
    Function,
}

/// Values that have a script-level type.
pub trait TypeOf {
    fn type_of(&self) -> Type;
}

} // verus!
