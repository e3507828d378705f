use vstd::prelude::*;

verus! {

/// The types of data that the fields of a host's items can hold.
#[derive(Debug, Clone, Copy, PartialEq, Eq, Structural, PartialOrd, Ord)]
pub enum DataType {
    Blob,
    String,
    Float,
    Int,
    Bool,
}

} // verus!
