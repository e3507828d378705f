use crate::number::Number;
use crate::primitive::Primitive;
use crate::table::index_key;
use crate::table::Table;
use crate::value::Value;
use vstd::prelude::*;
use vstd::std_specs::convert::TryFromSpec;

verus! {

/// The ways in which the arguments of a call do not suit a function of the
/// host. Each names the place of the argument and the number of arguments
/// that the function takes.
#[derive(Debug, Clone, Copy, PartialEq, Eq, Structural)]
pub enum CallError {
    /// The arguments do not bind the place.
    NotEnoughArguments(usize, usize),
    /// The argument at the place does not convert into what the function takes.
    InvalidArgumentType(usize, usize),
}

/// What comes of converting a value into an argument at a place.
pub open spec fn converted<T: TryFrom<Value>>(value: Value, place: usize, arity: usize) -> Result<
    T,
    CallError,
> {
    match T::try_from_spec(value) {
        Ok(t) => Ok(t),
        Err(_) => Err(CallError::InvalidArgumentType(place, arity)),
    }
}

/// The argument at a place of the table of arguments, converted into what
/// a function of the host that takes `arity` arguments takes there.
///
/// A place that the table does not bind gives `NotEnoughArguments`; a
/// place bound to nil is bound. Otherwise the result is that of converting
/// a copy of the value bound to the place.
pub fn argument<T: TryFrom<Value>>(args: &Table, place: usize, arity: usize) -> (r: Result<
    T,
    CallError,
>)
    ensures
        !args@.contains_key(index_key(place as nat)) ==> r == Err::<T, CallError>(
            CallError::NotEnoughArguments(place, arity),
        ),
        args@.contains_key(index_key(place as nat)) && T::obeys_try_from_spec() ==> exists|
            copy: Value,
        |
            copy@ == args@[index_key(place as nat)] && r == #[trigger] converted::<T>(
                copy,
                place,
                arity,
            ),
{
    let key = Primitive::Number(Number::from_usize(place));
    match args.get(&key) {
        None => Err(CallError::NotEnoughArguments(place, arity)),
        Some(value) => {
            let copy = value.clone();
            let r = match T::try_from(copy) {
                Ok(t) => Ok(t),
                Err(_) => Err(CallError::InvalidArgumentType(place, arity)),
            };
            proof {
                if T::obeys_try_from_spec() {
                    assert(r == converted::<T>(copy, place, arity));
                }
            }
            r
        },
    }
}

} // verus!
