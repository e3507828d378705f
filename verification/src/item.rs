use core::cmp::Ordering;
use vstd::prelude::*;

verus! {

/// The identifier of an item that a host keeps in a table of its own.
#[derive(Debug, Clone, Copy, PartialEq, Eq, Structural, Ord, Hash)]
pub struct ItemID(u64);

impl View for ItemID {
    type V = u64;

    closed spec fn view(&self) -> u64 {
        self.0
    }
}

impl ItemID {
    /// The identifier with the given number.
    pub fn new(value: u64) -> (id: ItemID)
        ensures
            id@ == value,
    {
        ItemID(value)
    }
}

/// How two numbers stand to each other.
pub open spec fn number_order(a: u64, b: u64) -> Ordering {
    if a < b {
        Ordering::Less
    } else if a == b {
        Ordering::Equal
    } else {
        Ordering::Greater
    }
}

impl PartialOrd for ItemID {
    fn partial_cmp(&self, other: &ItemID) -> (r: Option<Ordering>) {
        if self.0 < other.0 {
            Some(Ordering::Less)
        } else if self.0 == other.0 {
            Some(Ordering::Equal)
        } else {
            Some(Ordering::Greater)
        }
    }
}

impl vstd::std_specs::cmp::PartialOrdSpecImpl for ItemID {
    open spec fn obeys_partial_cmp_spec() -> bool {
        true
    }

    /// Identifiers are ordered as their numbers are.
    open spec fn partial_cmp_spec(&self, other: &ItemID) -> Option<Ordering> {
        Some(number_order(self@, other@))
    }
}

/// An identifier is its number and nothing else: identifiers with the same
/// number are the same.
pub proof fn lemma_item_id_is_number(a: ItemID, b: ItemID)
    ensures
        a@ == b@ <==> a == b,
{
}

/// Hands out identifiers, one after the other.
#[derive(Debug, Default)]
pub struct ItemIDGenerator(u64);

impl View for ItemIDGenerator {
    type V = u64;

    /// The number of the identifier that comes next.
    closed spec fn view(&self) -> u64 {
        self.0
    }
}

impl ItemIDGenerator {
    /// The generator whose first identifier has the given number.
    pub fn new(first_value: u64) -> (generator: ItemIDGenerator)
        ensures
            generator@ == first_value,
    {
        ItemIDGenerator(first_value)
    }

    /// The next identifier. The numbers go up by one, and start again at 0
    /// after the greatest.
    pub fn next(&mut self) -> (id: ItemID)
        ensures
            id@ == old(self)@,
            final(self)@ == (if old(self)@ == u64::MAX {
                0
            } else {
                old(self)@ + 1
            }),
    {
        let current = self.0;
        self.0 = if current == u64::MAX {
            0
        } else {
            current + 1
        };
        ItemID(current)
    }
}

} // verus!
