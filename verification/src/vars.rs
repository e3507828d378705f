use crate::value::value_view;
use crate::value::Value;
use crate::value::ValueView;
use vstd::prelude::*;
use vstd::string::StringExecFns;

verus! {

/// Variables: a mapping from names to values.
#[derive(Debug)]
pub struct Vars {
    names: Vec<String>,
    values: Vec<Value>,
}

/// The bindings that names and values make, taken in pairs: a later pair
/// replaces an earlier one with the same name.
pub open spec fn bindings(names: Seq<String>, values: Seq<Value>) -> Map<Seq<char>, ValueView>
    decreases values.len(),
{
    if values.len() == 0 || names.len() == 0 {
        Map::empty()
    } else {
        bindings(names.drop_last(), values.drop_last()).insert(
            names.last()@,
            value_view(values.last()),
        )
    }
}

/// Whether no two of the names are the same.
pub open spec fn distinct_names(names: Seq<String>) -> bool {
    forall|i: int, j: int| 0 <= i < j < names.len() ==> (#[trigger] names[i])@ != (#[trigger] names[j])@
}

/// What the pairs bind: the names and no others, each, where no name
/// occurs twice, to the value paired with it; and then as many names as
/// there are pairs.
pub proof fn lemma_bindings(names: Seq<String>, values: Seq<Value>)
    requires
        names.len() == values.len(),
    ensures
        bindings(names, values).dom().finite(),
        forall|k: Seq<char>| #[trigger]
            bindings(names, values).contains_key(k) <==> exists|i: int|
                0 <= i < names.len() && (#[trigger] names[i])@ == k,
        distinct_names(names) ==> forall|i: int|
            0 <= i < names.len() ==> bindings(names, values)[(#[trigger] names[i])@] == value_view(
                values[i],
            ),
        distinct_names(names) ==> bindings(names, values).dom().len() == names.len(),
    decreases names.len(),
{
    if names.len() > 0 {
        let front = names.drop_last();
        let last = names.last();
        lemma_bindings(front, values.drop_last());
        assert forall|k: Seq<char>| #[trigger]
            bindings(names, values).contains_key(k) implies exists|i: int|
            0 <= i < names.len() && (#[trigger] names[i])@ == k by {
            if k == last@ {
                assert(names[names.len() - 1]@ == k);
            } else {
                let i = choose|i: int| 0 <= i < front.len() && (#[trigger] front[i])@ == k;
                assert(names[i]@ == k);
            }
        }
        assert forall|k: Seq<char>|
            (exists|i: int| 0 <= i < names.len() && (#[trigger] names[i])@ == k) implies #[trigger]
            bindings(names, values).contains_key(k) by {
            let i = choose|i: int| 0 <= i < names.len() && (#[trigger] names[i])@ == k;
            if i < names.len() - 1 {
                assert(front[i]@ == k);
            }
        }
        if distinct_names(names) {
            assert(distinct_names(front)) by {
                assert forall|i: int, j: int| 0 <= i < j < front.len() implies (#[trigger] front[i])@
                    != (#[trigger] front[j])@ by {
                    assert(names[i]@ != names[j]@);
                }
            }
            assert forall|i: int| 0 <= i < names.len() implies bindings(names, values)[(
            #[trigger] names[i])@] == value_view(values[i]) by {
                if i < names.len() - 1 {
                    assert(front[i]@ == names[i]@);
                    assert(names[i]@ != names[names.len() - 1]@);
                }
            }
            assert(!bindings(front, values.drop_last()).contains_key(last@)) by {
                if bindings(front, values.drop_last()).contains_key(last@) {
                    let i = choose|i: int| 0 <= i < front.len() && (#[trigger] front[i])@ == last@;
                    assert(names[i]@ != names[names.len() - 1]@);
                }
            }
        }
    }
}

/// Replacing the value paired with a name rebinds that name and no other.
pub proof fn lemma_bindings_update(names: Seq<String>, values: Seq<Value>, i: int, value: Value)
    requires
        names.len() == values.len(),
        distinct_names(names),
        0 <= i < names.len(),
    ensures
        bindings(names, values.update(i, value)) == bindings(names, values).insert(
            names[i]@,
            value_view(value),
        ),
{
    let after = values.update(i, value);
    lemma_bindings(names, values);
    lemma_bindings(names, after);
    let expected = bindings(names, values).insert(names[i]@, value_view(value));
    assert forall|k: Seq<char>| bindings(names, after).contains_key(k) implies #[trigger]
    expected.contains_key(k) && expected[k] == bindings(names, after)[k] by {
        let j = choose|j: int| 0 <= j < names.len() && (#[trigger] names[j])@ == k;
        if j < i {
            assert(names[j]@ != names[i]@);
        }
        if i < j {
            assert(names[i]@ != names[j]@);
        }
    }
    assert(bindings(names, after) =~= expected);
}

/// Adding a pair at the end binds its name, whatever was bound to it.
pub proof fn lemma_bindings_push(names: Seq<String>, values: Seq<Value>, name: String, value: Value)
    requires
        names.len() == values.len(),
    ensures
        bindings(names.push(name), values.push(value)) == bindings(names, values).insert(
            name@,
            value_view(value),
        ),
{
    assert(names.push(name).drop_last() =~= names);
    assert(values.push(value).drop_last() =~= values);
}

impl View for Vars {
    type V = Map<Seq<char>, ValueView>;

    closed spec fn view(&self) -> Map<Seq<char>, ValueView> {
        bindings(self.names@, self.values@)
    }
}

impl Vars {
    #[verifier::type_invariant]
    spec fn well_formed(self) -> bool {
        &&& self.names.len() == self.values.len()
        &&& distinct_names(self.names@)
    }

    /// No variables.
    pub fn new() -> (vars: Vars)
        ensures
            vars@ == Map::<Seq<char>, ValueView>::empty(),
    {
        Vars { names: Vec::new(), values: Vec::new() }
    }

    /// The bound names are finitely many.
    pub proof fn lemma_finite(self)
        ensures
            self@.dom().finite(),
    {
        lemma_bindings_finite(self.names@, self.values@);
    }

    /// The number of variables.
    pub fn len(&self) -> (n: usize)
        ensures
            n == self@.len(),
    {
        proof {
            use_type_invariant(self);
            lemma_bindings(self.names@, self.values@);
        }
        self.names.len()
    }

    /// The place of the pair with the given name, if there is one.
    fn find(&self, name: &String) -> (r: Option<usize>)
        ensures
            match r {
                Some(i) => i < self.names.len() && self.names[i as int]@ == name@,
                None => forall|i: int|
                    0 <= i < self.names.len() ==> (#[trigger] self.names[i])@ != name@,
            },
    {
        let mut i: usize = 0;
        while i < self.names.len()
            invariant
                i <= self.names.len(),
                forall|j: int| 0 <= j < i ==> (#[trigger] self.names[j])@ != name@,
            decreases self.names.len() - i,
        {
            if self.names[i] == *name {
                return Some(i);
            }
            i += 1;
        }
        None
    }

    /// The value of a variable, if the name is bound.
    pub fn get(&self, name: &str) -> (r: Option<&Value>)
        ensures
            match r {
                Some(v) => self@.contains_key(name@) && v@ == self@[name@],
                None => !self@.contains_key(name@),
            },
    {
        proof {
            use_type_invariant(self);
            lemma_bindings(self.names@, self.values@);
        }
        let name = String::from_str(name);
        match self.find(&name) {
            Some(i) => Some(&self.values[i]),
            None => None,
        }
    }

    /// Binds a name to a value, and returns what was bound to it before.
    pub fn insert(&mut self, name: String, value: Value) -> (previous: Option<Value>)
        ensures
            final(self)@ == old(self)@.insert(name@, value@),
            match previous {
                Some(v) => old(self)@.contains_key(name@) && v@ == old(self)@[name@],
                None => !old(self)@.contains_key(name@),
            },
    {
        proof {
            use_type_invariant(&*self);
            lemma_bindings(self.names@, self.values@);
        }
        let found = self.find(&name);
        let mut taken = Vars { names: Vec::new(), values: Vec::new() };
        core::mem::swap(&mut taken, self);
        let Vars { names, values } = taken;
        let mut names = names;
        let mut values = values;
        let previous = match found {
            Some(i) => {
                proof {
                    lemma_bindings_update(names@, values@, i as int, value);
                }
                let mut slot = value;
                core::mem::swap(&mut slot, &mut values[i]);
                Some(slot)
            },
            None => {
                proof {
                    lemma_bindings_push(names@, values@, name, value);
                }
                names.push(name);
                values.push(value);
                None
            },
        };
        *self = Vars { names, values };
        previous
    }

    /// The same variables, copied.
    pub fn copy(&self) -> (vars: Vars)
        ensures
            vars@ == self@,
    {
        proof {
            use_type_invariant(self);
        }
        let mut names: Vec<String> = Vec::new();
        let mut values: Vec<Value> = Vec::new();
        let mut i: usize = 0;
        while i < self.names.len()
            invariant
                self.names.len() == self.values.len(),
                i <= self.names.len(),
                names.len() == i,
                values.len() == i,
                forall|j: int| 0 <= j < i ==> (#[trigger] names[j])@ == self.names[j]@,
                forall|j: int|
                    0 <= j < i ==> value_view(#[trigger] values[j]) == value_view(self.values[j]),
            decreases self.names.len() - i,
        {
            names.push(self.names[i].clone());
            values.push(self.values[i].clone());
            i += 1;
        }
        proof {
            lemma_bindings_alike(names@, values@, self.names@, self.values@);
            assert forall|a: int, b: int| 0 <= a < b < names.len() implies (#[trigger] names[a])@ != (
            #[trigger] names[b])@ by {
                assert(self.names[a]@ != self.names[b]@);
            }
        }
        Vars { names, values }
    }
}

impl Clone for Vars {
    fn clone(&self) -> (vars: Vars)
        ensures
            vars@ == self@,
    {
        self.copy()
    }
}

/// The bound names are finitely many, however names and values pair up.
proof fn lemma_bindings_finite(names: Seq<String>, values: Seq<Value>)
    ensures
        bindings(names, values).dom().finite(),
    decreases values.len(),
{
    if values.len() > 0 && names.len() > 0 {
        lemma_bindings_finite(names.drop_last(), values.drop_last());
    }
}

/// What pairs bind depends on what their names and values are, not on how
/// they are held.
proof fn lemma_bindings_alike(
    names: Seq<String>,
    values: Seq<Value>,
    other_names: Seq<String>,
    other_values: Seq<Value>,
)
    requires
        names.len() == other_names.len(),
        values.len() == other_values.len(),
        forall|i: int| 0 <= i < names.len() ==> (#[trigger] names[i])@ == other_names[i]@,
        forall|i: int|
            0 <= i < values.len() ==> value_view(#[trigger] values[i]) == value_view(
                other_values[i],
            ),
    ensures
        bindings(names, values) == bindings(other_names, other_values),
    decreases values.len(),
{
    if values.len() > 0 && names.len() > 0 {
        lemma_bindings_alike(
            names.drop_last(),
            values.drop_last(),
            other_names.drop_last(),
            other_values.drop_last(),
        );
    }
}

} // verus!
