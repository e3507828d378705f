use crate::convert::lemma_nat_bits_injective;
use crate::convert::lemma_nat_bits_plain;
use crate::convert::nat_bits;
use crate::convert::TWO_53;
use crate::number::Number;
use crate::primitive::Primitive;
use crate::primitive::PrimitiveView;
use crate::semantics::inhabited;
use crate::value::is_live;
use crate::value::lemma_nothing_else_equals_nil;
use crate::value::lemma_table_eq;
use crate::value::live;
use crate::value::value_eq;
use crate::value::value_view;
use crate::value::Value;
use crate::value::ValueView;
use vstd::prelude::*;

verus! {

/// A mapping from primitives to values, which serves as dictionary and,
/// with the keys 0, 1, 2 and so on, as list.
///
/// A key bound to nil counts as absent wherever the table is walked or
/// compared; only `get`, `get_mut` and `remove` tell such a binding from
/// none.
#[derive(Debug)]
pub struct Table {
    keys: Vec<Primitive>,
    values: Vec<Value>,
}

/// The bindings that keys and values make, taken in pairs: a later pair
/// replaces an earlier one with an equal key.
pub open spec fn entries_view(keys: Seq<Primitive>, values: Seq<Value>) -> Map<
    PrimitiveView,
    ValueView,
>
    decreases values, 0nat,
{
    if values.len() == 0 || keys.len() == 0 {
        Map::empty()
    } else {
        entries_view(keys.drop_last(), values.drop_last()).insert(
            keys.last()@.key(),
            value_view(values.last()),
        )
    }
}

/// The bindings of a table: from the key of each primitive that is bound to
/// what its value is.
pub closed spec fn table_view(t: Table) -> Map<PrimitiveView, ValueView>
    decreases t, 0nat,
{
    entries_view(t.keys@, t.values@)
}

/// Whether no two of the primitives have the same key.
pub open spec fn distinct_keys(keys: Seq<Primitive>) -> bool {
    forall|i: int, j: int|
        0 <= i < j < keys.len() ==> (#[trigger] keys[i])@.key() != (#[trigger] keys[j])@.key()
}

/// Whether each of the primitives is a key, not another primitive equal to one.
pub open spec fn keyed(keys: Seq<Primitive>) -> bool {
    forall|i: int| 0 <= i < keys.len() ==> (#[trigger] keys[i])@.key() == keys[i]@
}

impl View for Table {
    type V = Map<PrimitiveView, ValueView>;

    open spec fn view(&self) -> Map<PrimitiveView, ValueView> {
        table_view(*self)
    }
}

/// What the pairs bind: the keys of the primitives and no others, each,
/// where no key occurs twice, to the value paired with it.
pub proof fn lemma_entries_view(keys: Seq<Primitive>, values: Seq<Value>)
    requires
        keys.len() == values.len(),
    ensures
        entries_view(keys, values).dom().finite(),
        entries_view(keys, values).dom().len() <= keys.len(),
        forall|k: PrimitiveView| #[trigger]
            entries_view(keys, values).contains_key(k) <==> exists|i: int|
                0 <= i < keys.len() && (#[trigger] keys[i])@.key() == k,
        distinct_keys(keys) ==> forall|i: int|
            0 <= i < keys.len() ==> entries_view(keys, values)[(#[trigger] keys[i])@.key()]
                == value_view(values[i]),
    decreases keys.len(),
{
    if keys.len() > 0 {
        let front = keys.drop_last();
        let last = keys.last();
        lemma_entries_view(front, values.drop_last());
        assert forall|k: PrimitiveView| #[trigger]
            entries_view(keys, values).contains_key(k) implies exists|i: int|
            0 <= i < keys.len() && (#[trigger] keys[i])@.key() == k by {
            if k == last@.key() {
                assert(keys[keys.len() - 1]@.key() == k);
            } else {
                let i = choose|i: int| 0 <= i < front.len() && (#[trigger] front[i])@.key() == k;
                assert(keys[i]@.key() == k);
            }
        }
        assert forall|k: PrimitiveView|
            (exists|i: int| 0 <= i < keys.len() && (#[trigger] keys[i])@.key() == k) implies #[trigger]
            entries_view(keys, values).contains_key(k) by {
            let i = choose|i: int| 0 <= i < keys.len() && (#[trigger] keys[i])@.key() == k;
            if i < keys.len() - 1 {
                assert(front[i]@.key() == k);
            }
        }
        if distinct_keys(keys) {
            assert(distinct_keys(front)) by {
                assert forall|i: int, j: int| 0 <= i < j < front.len() implies (#[trigger] front[i])@.key()
                    != (#[trigger] front[j])@.key() by {
                    assert(keys[i]@.key() != keys[j]@.key());
                }
            }
            assert forall|i: int| 0 <= i < keys.len() implies entries_view(keys, values)[(
            #[trigger] keys[i])@.key()] == value_view(values[i]) by {
                if i < keys.len() - 1 {
                    assert(front[i]@.key() == keys[i]@.key());
                    assert(keys[i]@.key() != keys[keys.len() - 1]@.key());
                }
            }
        }
    }
}

/// Replacing the value paired with a key rebinds that key and no other.
pub proof fn lemma_entries_update(keys: Seq<Primitive>, values: Seq<Value>, i: int, value: Value)
    requires
        keys.len() == values.len(),
        distinct_keys(keys),
        0 <= i < keys.len(),
    ensures
        entries_view(keys, values.update(i, value)) == entries_view(keys, values).insert(
            keys[i]@.key(),
            value_view(value),
        ),
{
    let after = values.update(i, value);
    lemma_entries_view(keys, values);
    lemma_entries_view(keys, after);
    let expected = entries_view(keys, values).insert(keys[i]@.key(), value_view(value));
    assert forall|k: PrimitiveView| entries_view(keys, after).contains_key(k) implies #[trigger]
    expected.contains_key(k) && expected[k] == entries_view(keys, after)[k] by {
        let j = choose|j: int| 0 <= j < keys.len() && (#[trigger] keys[j])@.key() == k;
        if j < i {
            assert(keys[j]@.key() != keys[i]@.key());
        }
        if i < j {
            assert(keys[i]@.key() != keys[j]@.key());
        }
    }
    assert(entries_view(keys, after) =~= expected);
}

/// Adding a pair at the end binds its key, whatever was bound to it.
pub proof fn lemma_entries_push(
    keys: Seq<Primitive>,
    values: Seq<Value>,
    key: Primitive,
    value: Value,
)
    requires
        keys.len() == values.len(),
    ensures
        entries_view(keys.push(key), values.push(value)) == entries_view(keys, values).insert(
            key@.key(),
            value_view(value),
        ),
{
    assert(keys.push(key).drop_last() =~= keys);
    assert(values.push(value).drop_last() =~= values);
}

/// Taking a pair out unbinds its key and no other.
pub proof fn lemma_entries_remove(keys: Seq<Primitive>, values: Seq<Value>, i: int)
    requires
        keys.len() == values.len(),
        distinct_keys(keys),
        0 <= i < keys.len(),
    ensures
        distinct_keys(keys.remove(i)),
        entries_view(keys.remove(i), values.remove(i)) == entries_view(keys, values).remove(
            keys[i]@.key(),
        ),
{
    let after = keys.remove(i);
    assert forall|a: int, b: int| 0 <= a < b < after.len() implies (#[trigger] after[a])@.key() != (
    #[trigger] after[b])@.key() by {
        let a0 = if a < i { a } else { a + 1 };
        let b0 = if b < i { b } else { b + 1 };
        assert(keys[a0]@.key() != keys[b0]@.key());
    }
    lemma_entries_view(keys, values);
    lemma_entries_view(after, values.remove(i));
    let expected = entries_view(keys, values).remove(keys[i]@.key());
    assert forall|k: PrimitiveView| entries_view(after, values.remove(i)).contains_key(k) implies #[trigger]
    expected.contains_key(k) && expected[k] == entries_view(after, values.remove(i))[k] by {
        let j = choose|j: int| 0 <= j < after.len() && (#[trigger] after[j])@.key() == k;
        let j0 = if j < i { j } else { j + 1 };
        assert(keys[j0]@.key() == k);
        if j0 < i {
            assert(keys[j0]@.key() != keys[i]@.key());
        } else {
            assert(keys[i]@.key() != keys[j0]@.key());
        }
    }
    assert forall|k: PrimitiveView| #[trigger] expected.contains_key(k) implies entries_view(
        after,
        values.remove(i),
    ).contains_key(k) by {
        let j = choose|j: int| 0 <= j < keys.len() && (#[trigger] keys[j])@.key() == k;
        let j1 = if j < i { j } else { j - 1 };
        assert(after[j1]@.key() == k);
    }
    assert(entries_view(after, values.remove(i)) =~= expected);
}

/// The key under which a list holds its element number `i`.
pub open spec fn index_key(i: nat) -> PrimitiveView {
    PrimitiveView::Number(nat_bits(i)).key()
}

/// What is bound when the values are bound, from the last to the first,
/// each to the key of its place, on top of the bindings of `base`.
pub open spec fn list_onto(base: Map<PrimitiveView, ValueView>, values: Seq<ValueView>) -> Map<
    PrimitiveView,
    ValueView,
>
    decreases values.len(),
{
    if values.len() == 0 {
        base
    } else {
        list_onto(
            base.insert(index_key((values.len() - 1) as nat), values.last()),
            values.drop_last(),
        )
    }
}

/// The bindings of the list of the given values: the key of each place
/// bound to the value at that place.
pub open spec fn list_view(values: Seq<ValueView>) -> Map<PrimitiveView, ValueView> {
    list_onto(Map::empty(), values)
}

/// The keys of two places up to 2^53 are the same only if the places are.
pub proof fn lemma_index_key_injective(i: nat, j: nat)
    requires
        i <= TWO_53,
        j <= TWO_53,
        index_key(i) == index_key(j),
    ensures
        i == j,
{
    lemma_nat_bits_plain(i);
    lemma_nat_bits_plain(j);
    lemma_nat_bits_injective(i, j);
}

/// Binding a list of up to 2^53 values over a base binds the key of each
/// place to the value at that place, and leaves every other key as the
/// base has it.
pub proof fn lemma_list_onto(base: Map<PrimitiveView, ValueView>, values: Seq<ValueView>)
    requires
        values.len() <= TWO_53,
    ensures
        forall|i: int|
            0 <= i < values.len() ==> list_onto(base, values).contains_key(
                #[trigger] index_key(i as nat),
            ) && list_onto(base, values)[index_key(i as nat)] == values[i],
        forall|k: PrimitiveView|
            (forall|i: int| 0 <= i < values.len() ==> k != #[trigger] index_key(i as nat)) ==> (
            #[trigger] list_onto(base, values).contains_key(k) == base.contains_key(k)) && (
            base.contains_key(k) ==> list_onto(base, values)[k] == base[k]),
    decreases values.len(),
{
    if values.len() > 0 {
        let n = (values.len() - 1) as nat;
        let front = values.drop_last();
        let under = base.insert(index_key(n), values.last());
        lemma_list_onto(under, front);
        assert forall|i: int| 0 <= i < values.len() implies list_onto(base, values).contains_key(
            #[trigger] index_key(i as nat),
        ) && list_onto(base, values)[index_key(i as nat)] == values[i] by {
            if i == n {
                assert forall|j: int| 0 <= j < front.len() implies index_key(n) != #[trigger] index_key(
                    j as nat,
                ) by {
                    if index_key(n) == index_key(j as nat) {
                        lemma_index_key_injective(n, j as nat);
                    }
                }
                assert(list_onto(under, front).contains_key(index_key(n)));
            } else {
                assert(front[i] == values[i]);
            }
        }
        assert forall|k: PrimitiveView|
            (forall|i: int|
                0 <= i < values.len() ==> k != #[trigger] index_key(i as nat)) implies (#[trigger] list_onto(
            base,
            values,
        ).contains_key(k) == base.contains_key(k)) && (base.contains_key(k) ==> list_onto(
            base,
            values,
        )[k] == base[k]) by {
            assert(k != index_key(n));
            assert(forall|i: int| 0 <= i < front.len() ==> k != #[trigger] index_key(i as nat));
            assert(list_onto(under, front).contains_key(k) == under.contains_key(k));
        }
    }
}

/// A list of up to 2^53 values binds the key of each place to the value
/// at that place, and no other key.
pub proof fn lemma_list_view(values: Seq<ValueView>)
    requires
        values.len() <= TWO_53,
    ensures
        forall|i: int|
            0 <= i < values.len() ==> list_view(values).contains_key(
                #[trigger] index_key(i as nat),
            ) && list_view(values)[index_key(i as nat)] == values[i],
        forall|k: PrimitiveView| #[trigger]
            list_view(values).contains_key(k) ==> exists|i: int|
                0 <= i < values.len() && k == #[trigger] index_key(i as nat),
{
    lemma_list_onto(Map::empty(), values);
    assert forall|k: PrimitiveView| #[trigger] list_view(values).contains_key(k) implies exists|
        i: int,
    | 0 <= i < values.len() && k == #[trigger] index_key(i as nat) by {
        if forall|i: int| 0 <= i < values.len() ==> k != #[trigger] index_key(i as nat) {
            assert(list_onto(Map::empty(), values).contains_key(k) == Map::<
                PrimitiveView,
                ValueView,
            >::empty().contains_key(k));
        }
    }
}

/// The views of values.
pub open spec fn views(values: Seq<Value>) -> Seq<ValueView> {
    values.map_values(|v: Value| value_view(v))
}

/// The views of pairs of key and value.
pub open spec fn pair_views(pairs: Seq<(Primitive, Value)>) -> Seq<(PrimitiveView, ValueView)> {
    pairs.map_values(|p: (Primitive, Value)| (p.0@, value_view(p.1)))
}

/// The views of pairs of a borrowed key and a borrowed value.
pub open spec fn borrowed_pair_views(pairs: Seq<(&Primitive, &Value)>) -> Seq<
    (PrimitiveView, ValueView),
> {
    pairs.map_values(|p: (&Primitive, &Value)| ((*p.0)@, value_view(*p.1)))
}

/// Whether the pairs list the bindings of `m`: each pair is a binding of
/// `m`, no key comes twice, and no binding is left out.
pub open spec fn lists(
    pairs: Seq<(PrimitiveView, ValueView)>,
    m: Map<PrimitiveView, ValueView>,
) -> bool {
    &&& forall|i: int|
        0 <= i < pairs.len() ==> m.contains_key((#[trigger] pairs[i]).0) && m[pairs[i].0]
            == pairs[i].1
    &&& forall|i: int, j: int|
        0 <= i < j < pairs.len() ==> (#[trigger] pairs[i]).0 != (#[trigger] pairs[j]).0
    &&& forall|k: PrimitiveView| #[trigger]
        m.contains_key(k) ==> exists|i: int| 0 <= i < pairs.len() && (#[trigger] pairs[i]).0 == k
}

/// What is bound when the pairs are bound, from the last to the first, on
/// top of the bindings of `base`.
pub open spec fn insert_all(
    base: Map<PrimitiveView, ValueView>,
    pairs: Seq<(PrimitiveView, ValueView)>,
) -> Map<PrimitiveView, ValueView>
    decreases pairs.len(),
{
    if pairs.len() == 0 {
        base
    } else {
        insert_all(base.insert(pairs.last().0, pairs.last().1), pairs.drop_last())
    }
}

/// Binding the pairs that list a mapping, over a base, gives the base
/// overlaid with the mapping.
pub proof fn lemma_insert_all(
    base: Map<PrimitiveView, ValueView>,
    pairs: Seq<(PrimitiveView, ValueView)>,
    m: Map<PrimitiveView, ValueView>,
)
    requires
        lists(pairs, m),
    ensures
        insert_all(base, pairs) == base.union_prefer_right(m),
    decreases pairs.len(),
{
    if pairs.len() == 0 {
        assert(m =~= Map::empty());
        assert(base.union_prefer_right(m) =~= base);
    } else {
        let last = pairs.last();
        let front = pairs.drop_last();
        let rest = m.remove(last.0);
        assert(lists(front, rest)) by {
            assert forall|i: int| 0 <= i < front.len() implies rest.contains_key(
                (#[trigger] front[i]).0,
            ) && rest[front[i].0] == front[i].1 by {
                assert(pairs[i].0 != pairs[pairs.len() - 1].0);
                assert(m.contains_key(pairs[i].0));
            }
            assert forall|i: int, j: int| 0 <= i < j < front.len() implies (#[trigger] front[i]).0 != (
            #[trigger] front[j]).0 by {
                assert(pairs[i].0 != pairs[j].0);
            }
            assert forall|k: PrimitiveView| #[trigger] rest.contains_key(k) implies exists|i: int|
                0 <= i < front.len() && (#[trigger] front[i]).0 == k by {
                assert(m.contains_key(k));
                let i = choose|i: int| 0 <= i < pairs.len() && (#[trigger] pairs[i]).0 == k;
                assert(front[i].0 == k);
            }
        }
        lemma_insert_all(base.insert(last.0, last.1), front, rest);
        assert(m.contains_key(pairs[pairs.len() - 1].0));
        assert(base.insert(last.0, last.1).union_prefer_right(rest) =~= base.union_prefer_right(m));
    }
}

/// The pairs without those whose value is nil.
fn live_entries(keys: Vec<Primitive>, values: Vec<Value>) -> (r: (Vec<Primitive>, Vec<Value>))
    requires
        keys.len() == values.len(),
        distinct_keys(keys@),
        keyed(keys@),
    ensures
        r.0.len() == r.1.len(),
        distinct_keys(r.0@),
        keyed(r.0@),
        entries_view(r.0@, r.1@) == live(entries_view(keys@, values@)),
{
    let ghost all = entries_view(keys@, values@);
    let mut keys = keys;
    let mut values = values;
    let mut i: usize = 0;
    while i < keys.len()
        invariant
            keys.len() == values.len(),
            i <= keys.len(),
            distinct_keys(keys@),
            keyed(keys@),
            live(entries_view(keys@, values@)) == live(all),
            forall|j: int| 0 <= j < i ==> !value_view(#[trigger] values[j]).is_nil(),
        decreases keys.len() - i,
    {
        if values[i].is_nil() {
            proof {
                lemma_entries_view(keys@, values@);
                lemma_entries_remove(keys@, values@, i as int);
                let m = entries_view(keys@, values@);
                assert(live(m.remove(keys[i as int]@.key())) =~= live(m));
            }
            keys.remove(i);
            values.remove(i);
        } else {
            i += 1;
        }
    }
    proof {
        lemma_entries_view(keys@, values@);
        let m = entries_view(keys@, values@);
        assert forall|k: PrimitiveView| m.contains_key(k) implies !(#[trigger] m[k]).is_nil() by {
            let j = choose|j: int| 0 <= j < keys.len() && (#[trigger] keys[j])@.key() == k;
            assert(!value_view(values[j]).is_nil());
        }
        assert(live(m) =~= m);
    }
    (keys, values)
}

impl Table {
    #[verifier::type_invariant]
    spec fn well_formed(self) -> bool {
        &&& self.keys.len() == self.values.len()
        &&& distinct_keys(self.keys@)
        &&& keyed(self.keys@)
    }

    /// The bound keys are finitely many.
    pub proof fn lemma_finite(self)
        ensures
            self@.dom().finite(),
    {
        if self.keys.len() == self.values.len() {
            lemma_entries_view(self.keys@, self.values@);
        } else {
            lemma_entries_finite(self.keys@, self.values@);
        }
    }

    /// A table without bindings.
    pub fn new() -> (t: Table)
        ensures
            t@ == Map::<PrimitiveView, ValueView>::empty(),
    {
        Table { keys: Vec::new(), values: Vec::new() }
    }

    /// Moves the pairs out, to be changed and put back.
    fn take_entries(&mut self) -> (entries: (Vec<Primitive>, Vec<Value>))
        ensures
            entries.0@ == old(self).keys@,
            entries.1@ == old(self).values@,
            entries.0.len() == entries.1.len(),
            distinct_keys(entries.0@),
            keyed(entries.0@),
            final(self).keys@.len() == 0,
            final(self).values@.len() == 0,
    {
        proof {
            use_type_invariant(&*self);
        }
        let mut empty = Table { keys: Vec::new(), values: Vec::new() };
        core::mem::swap(&mut empty, self);
        let Table { keys, values } = empty;
        (keys, values)
    }

    /// The place of the pair with the given key, if there is one.
    fn find(&self, key: &Primitive) -> (r: Option<usize>)
        ensures
            match r {
                Some(i) => i < self.keys.len() && self.keys[i as int]@.key() == key@.key(),
                None => forall|i: int|
                    0 <= i < self.keys.len() ==> (#[trigger] self.keys[i])@.key() != key@.key(),
            },
    {
        let mut i: usize = 0;
        while i < self.keys.len()
            invariant
                i <= self.keys.len(),
                forall|j: int| 0 <= j < i ==> (#[trigger] self.keys[j])@.key() != key@.key(),
            decreases self.keys.len() - i,
        {
            if self.keys[i].same(key) {
                return Some(i);
            }
            i += 1;
        }
        None
    }

    /// The value bound to a key, if any: a binding to nil is a binding.
    pub fn get(&self, key: &Primitive) -> (r: Option<&Value>)
        ensures
            match r {
                Some(v) => self@.contains_key(key@.key()) && v@ == self@[key@.key()],
                None => !self@.contains_key(key@.key()),
            },
    {
        proof {
            use_type_invariant(self);
            lemma_entries_view(self.keys@, self.values@);
        }
        match self.find(key) {
            Some(i) => Some(&self.values[i]),
            None => None,
        }
    }

    /// Binds a key to a value, whatever was bound to it before. Binding a
    /// key to nil is how a script deletes it.
    pub fn set(&mut self, key: Primitive, value: Value)
        ensures
            final(self)@ == old(self)@.insert(key@.key(), value@),
    {
        let key = key.into_key();
        let found = self.find(&key);
        let (mut keys, mut values) = self.take_entries();
        match found {
            Some(i) => {
                proof {
                    lemma_entries_update(keys@, values@, i as int, value);
                }
                values.set(i, value);
            },
            None => {
                proof {
                    lemma_entries_push(keys@, values@, key, value);
                }
                keys.push(key);
                values.push(value);
            },
        }
        *self = Table { keys, values };
    }

    /// Takes a key and its value out of the table, and returns the value
    /// if the key was bound.
    pub fn remove(&mut self, key: &Primitive) -> (r: Option<Value>)
        ensures
            final(self)@ == old(self)@.remove(key@.key()),
            match r {
                Some(v) => old(self)@.contains_key(key@.key()) && v@ == old(self)@[key@.key()],
                None => !old(self)@.contains_key(key@.key()),
            },
    {
        proof {
            use_type_invariant(&*self);
            lemma_entries_view(self.keys@, self.values@);
        }
        match self.find(key) {
            Some(i) => {
                let (mut keys, mut values) = self.take_entries();
                proof {
                    lemma_entries_remove(keys@, values@, i as int);
                }
                keys.remove(i);
                let value = values.remove(i);
                *self = Table { keys, values };
                Some(value)
            },
            None => {
                assert(self@.remove(key@.key()) =~= self@);
                None
            },
        }
    }

    /// The list of the given values: the table that binds the key of each
    /// place to the value at that place.
    pub fn from_vec(values: Vec<Value>) -> (t: Table)
        ensures
            t@ == list_view(views(values@)),
    {
        let ghost all = views(values@);
        let mut values = values;
        let mut table = Table::new();
        while values.len() > 0
            invariant
                list_onto(table@, views(values@)) == list_view(all),
            decreases values.len(),
        {
            let ghost before = views(values@);
            let key = Primitive::Number(Number::from_usize(values.len() - 1));
            let value = values.pop().unwrap();
            proof {
                assert(views(values@) =~= before.drop_last());
                assert(value@ == before.last());
            }
            table.set(key, value);
        }
        table
    }

    /// The elements of the list that the table holds: the values bound to
    /// the keys of the places 0, 1, 2 and so on, up to the first place
    /// whose key is not bound or bound to nil.
    pub fn iter_list(self) -> (elements: Vec<Value>)
        ensures
            forall|i: int|
                0 <= i < elements.len() ==> self@.contains_key(#[trigger] index_key(i as nat))
                    && self@[index_key(i as nat)] == elements[i]@ && !elements[i]@.is_nil(),
            elements.len() < usize::MAX ==> !live(self@).contains_key(
                index_key(elements.len() as nat),
            ),
    {
        let mut elements: Vec<Value> = Vec::new();
        while elements.len() < usize::MAX
            invariant
                forall|i: int|
                    0 <= i < elements.len() ==> self@.contains_key(#[trigger] index_key(i as nat))
                        && self@[index_key(i as nat)] == elements[i]@ && !elements[i]@.is_nil(),
            ensures
                elements.len() < usize::MAX ==> !live(self@).contains_key(
                    index_key(elements.len() as nat),
                ),
            decreases usize::MAX - elements.len(),
        {
            let key = Primitive::Number(Number::from_usize(elements.len()));
            match self.get(&key) {
                Some(value) => {
                    if value.is_nil() {
                        break ;
                    }
                    let element = value.clone();
                    elements.push(element);
                },
                None => {
                    break ;
                },
            }
        }
        elements
    }

    /// A table with the same bindings.
    pub fn copy(&self) -> (t: Table)
        ensures
            t@ == self@,
        decreases *self,
    {
        proof {
            use_type_invariant(self);
        }
        let mut keys: Vec<Primitive> = Vec::new();
        let mut values: Vec<Value> = Vec::new();
        let mut i: usize = 0;
        while i < self.keys.len()
            invariant
                self.keys.len() == self.values.len(),
                i <= self.keys.len(),
                keys.len() == i,
                values.len() == i,
                forall|j: int| 0 <= j < i ==> (#[trigger] keys[j])@ == self.keys[j]@,
                forall|j: int|
                    0 <= j < i ==> value_view(#[trigger] values[j]) == value_view(self.values[j]),
            decreases self.keys.len() - i,
        {
            keys.push(self.keys[i].clone());
            values.push(self.values[i].copy());
            i += 1;
        }
        proof {
            lemma_entries_alike(keys@, values@, self.keys@, self.values@);
            assert forall|a: int, b: int| 0 <= a < b < keys.len() implies (#[trigger] keys[a])@.key() != (
            #[trigger] keys[b])@.key() by {
                assert(self.keys[a]@.key() != self.keys[b]@.key());
            }
            assert forall|a: int| 0 <= a < keys.len() implies (#[trigger] keys[a])@.key()
                == keys[a]@ by {
                assert(self.keys[a]@.key() == self.keys[a]@);
            }
        }
        Table { keys, values }
    }

    /// Adds every live binding of the other table to this one: where both
    /// bind a key, the other table wins.
    pub fn merge(&mut self, other: Table)
        ensures
            final(self)@ == old(self)@.union_prefer_right(live(other@)),
    {
        let mut pairs = other.into_pairs();
        let ghost all = pair_views(pairs@);
        proof {
            lemma_insert_all(self@, all, live(other@));
        }
        while pairs.len() > 0
            invariant
                insert_all(self@, pair_views(pairs@)) == old(self)@.union_prefer_right(
                    live(other@),
                ),
                forall|i: int|
                    0 <= i < pairs.len() ==> (#[trigger] pairs[i]).0@.key() == pairs[i].0@,
            decreases pairs.len(),
        {
            let ghost before = pair_views(pairs@);
            let ghost n = pairs.len() - 1;
            assert(pairs[n].0@.key() == pairs[n].0@);
            let (key, value) = pairs.pop().unwrap();
            proof {
                assert(pair_views(pairs@) =~= before.drop_last());
                assert(before.last() == (key@, value@));
            }
            self.set(key, value);
        }
    }

    /// Whether some key is bound to a value other than nil.
    pub fn has_live(&self) -> (r: bool)
        ensures
            r == inhabited(self@),
    {
        proof {
            use_type_invariant(self);
            lemma_entries_view(self.keys@, self.values@);
        }
        let mut i: usize = 0;
        while i < self.values.len()
            invariant
                self.keys.len() == self.values.len(),
                distinct_keys(self.keys@),
                i <= self.values.len(),
                forall|j: int| 0 <= j < i ==> value_view(#[trigger] self.values[j]).is_nil(),
            decreases self.values.len() - i,
        {
            if !self.values[i].is_nil() {
                proof {
                    lemma_entries_view(self.keys@, self.values@);
                    let k = self.keys[i as int]@.key();
                    assert(self@.contains_key(k) && !self@[k].is_nil());
                }
                return true;
            }
            i += 1;
        }
        proof {
            lemma_entries_view(self.keys@, self.values@);
            assert forall|k: PrimitiveView| !(#[trigger] self@.contains_key(k) && !self@[k].is_nil()) by {
                if self@.contains_key(k) {
                    let j = choose|j: int|
                        0 <= j < self.keys.len() && (#[trigger] self.keys[j])@.key() == k;
                    assert(value_view(self.values[j]).is_nil());
                }
            }
        }
        false
    }

    /// Drops the keys that are bound to nil.
    pub fn compact(&mut self)
        ensures
            final(self)@ == live(old(self)@),
    {
        let (keys, values) = self.take_entries();
        let (keys, values) = live_entries(keys, values);
        *self = Table { keys, values };
    }

    /// The live bindings of the table, borrowed, in no particular order.
    pub fn iter(&self) -> (pairs: Vec<(&Primitive, &Value)>)
        ensures
            lists(borrowed_pair_views(pairs@), live(self@)),
            forall|i: int| 0 <= i < pairs.len() ==> (#[trigger] pairs[i]).0@.key() == pairs[i].0@,
    {
        proof {
            use_type_invariant(self);
        }
        let mut pairs: Vec<(&Primitive, &Value)> = Vec::new();
        let ghost mut from: Seq<int> = Seq::empty();
        let ghost mut to: Seq<int> = Seq::empty();
        let mut i: usize = 0;
        while i < self.keys.len()
            invariant
                self.keys.len() == self.values.len(),
                i <= self.keys.len(),
                from.len() == pairs.len(),
                to.len() == i,
                forall|j: int|
                    0 <= j < pairs.len() ==> 0 <= #[trigger] from[j] < i && *pairs[j].0
                        == self.keys[from[j]] && *pairs[j].1 == self.values[from[j]] && !value_view(
                        self.values[from[j]],
                    ).is_nil(),
                forall|j: int, k: int|
                    0 <= j < k < pairs.len() ==> #[trigger] from[j] < #[trigger] from[k],
                forall|a: int|
                    0 <= a < i && !value_view(#[trigger] self.values[a]).is_nil() ==> 0 <= to[a]
                        < pairs.len() && from[to[a]] == a,
            decreases self.keys.len() - i,
        {
            if !self.values[i].is_nil() {
                pairs.push((&self.keys[i], &self.values[i]));
                proof {
                    to = to.push(from.len() as int);
                    from = from.push(i as int);
                }
            } else {
                proof {
                    to = to.push(0);
                }
            }
            i += 1;
        }
        proof {
            lemma_entries_view(self.keys@, self.values@);
            let listed = borrowed_pair_views(pairs@);
            let m = live(self@);
            assert forall|j: int| 0 <= j < listed.len() implies m.contains_key(
                (#[trigger] listed[j]).0,
            ) && m[listed[j].0] == listed[j].1 && pairs[j].0@.key() == pairs[j].0@ by {
                let a = from[j];
                assert(self.keys[a]@.key() == self.keys[a]@);
                assert(listed[j] == (self.keys[a]@, value_view(self.values[a])));
            }
            assert forall|j: int, k: int| 0 <= j < k < listed.len() implies (#[trigger] listed[j]).0
                != (#[trigger] listed[k]).0 by {
                assert(from[j] < from[k]);
                assert(self.keys[from[j]]@.key() != self.keys[from[k]]@.key());
                assert(self.keys[from[j]]@.key() == self.keys[from[j]]@);
                assert(self.keys[from[k]]@.key() == self.keys[from[k]]@);
            }
            assert forall|k: PrimitiveView| #[trigger] m.contains_key(k) implies exists|j: int|
                0 <= j < listed.len() && (#[trigger] listed[j]).0 == k by {
                let a = choose|a: int|
                    0 <= a < self.keys.len() && (#[trigger] self.keys[a])@.key() == k;
                assert(!value_view(self.values[a]).is_nil());
                let j = to[a];
                assert(from[j] == a);
                assert(self.keys[a]@.key() == self.keys[a]@);
                assert(listed[j].0 == k);
            }
            assert forall|j: int| 0 <= j < pairs.len() implies (#[trigger] pairs[j]).0@.key()
                == pairs[j].0@ by {
                assert(self.keys[from[j]]@.key() == self.keys[from[j]]@);
            }
        }
        pairs
    }

    /// The live bindings of the table, in no particular order.
    pub fn into_pairs(self) -> (pairs: Vec<(Primitive, Value)>)
        ensures
            lists(pair_views(pairs@), live(self@)),
            forall|i: int| 0 <= i < pairs.len() ==> (#[trigger] pairs[i]).0@.key() == pairs[i].0@,
    {
        proof {
            use_type_invariant(&self);
        }
        let Table { keys, values } = self;
        let (mut keys, mut values) = live_entries(keys, values);
        let ghost live_keys = keys@;
        let ghost live_values = values@;
        let mut pairs: Vec<(Primitive, Value)> = Vec::new();
        while keys.len() > 0
            invariant
                live_keys.len() == live_values.len(),
                keys.len() == values.len(),
                keys.len() <= live_keys.len(),
                keys@ == live_keys.take(keys.len() as int),
                values@ == live_values.take(keys.len() as int),
                pairs.len() + keys.len() == live_keys.len(),
                forall|j: int|
                    0 <= j < pairs.len() ==> (#[trigger] pairs[j]).0 == live_keys[live_keys.len()
                        - 1 - j] && pairs[j].1 == live_values[live_keys.len() - 1 - j],
            decreases keys.len(),
        {
            let ghost n = keys.len() - 1;
            let key = keys.pop().unwrap();
            let value = values.pop().unwrap();
            assert(key == live_keys[n] && value == live_values[n]);
            assert(keys@ =~= live_keys.take(n));
            assert(values@ =~= live_values.take(n));
            pairs.push((key, value));
        }
        proof {
            lemma_entries_view(live_keys, live_values);
            let listed = pair_views(pairs@);
            let m = entries_view(live_keys, live_values);
            let last = live_keys.len() - 1;
            assert forall|i: int| 0 <= i < listed.len() implies m.contains_key(
                (#[trigger] listed[i]).0,
            ) && m[listed[i].0] == listed[i].1 by {
                assert(pairs[i].0 == live_keys[last - i]);
                assert(live_keys[last - i]@.key() == live_keys[last - i]@);
            }
            assert forall|i: int, j: int| 0 <= i < j < listed.len() implies (#[trigger] listed[i]).0
                != (#[trigger] listed[j]).0 by {
                assert(pairs[i].0 == live_keys[last - i]);
                assert(pairs[j].0 == live_keys[last - j]);
                assert(live_keys[last - j]@.key() != live_keys[last - i]@.key());
            }
            assert forall|k: PrimitiveView| #[trigger] m.contains_key(k) implies exists|i: int|
                0 <= i < listed.len() && (#[trigger] listed[i]).0 == k by {
                let a = choose|a: int| 0 <= a < live_keys.len() && (#[trigger] live_keys[a])@.key() == k;
                assert(pairs[last - a].0 == live_keys[a]);
                assert(listed[last - a].0 == k);
            }
        }
        pairs
    }

    /// Whether the two tables are equal: whether they have the same live
    /// keys and bind each of them to equal values.
    pub fn equals(&self, other: &Table) -> (r: bool)
        ensures
            r == value_eq(ValueView::Table(self@), ValueView::Table(other@)),
        decreases *self,
    {
        proof {
            use_type_invariant(self);
            use_type_invariant(other);
            lemma_entries_view(self.keys@, self.values@);
            lemma_entries_view(other.keys@, other.values@);
            lemma_table_eq(self@, other@);
        }
        let mut i: usize = 0;
        while i < self.keys.len()
            invariant
                i <= self.keys.len(),
                self.keys.len() == self.values.len(),
                distinct_keys(self.keys@),
                self@.dom().finite(),
                other@.dom().finite(),
                forall|a: int|
                    0 <= a < i && !value_view(#[trigger] self.values[a]).is_nil() ==> is_live(
                        other@,
                        self.keys[a]@.key(),
                    ) && value_eq(value_view(self.values[a]), other@[self.keys[a]@.key()]),
            decreases self.keys.len() - i,
        {
            if !self.values[i].is_nil() {
                let matched = match other.get(&self.keys[i]) {
                    Some(theirs) => self.values[i].equals(theirs),
                    None => false,
                };
                proof {
                    lemma_entries_view(self.keys@, self.values@);
                    let k = self.keys[i as int]@.key();
                    assert(self@.contains_key(k));
                    assert(self@[k] == value_view(self.values[i as int]));
                    assert(is_live(self@, k));
                    if other@.contains_key(k) {
                        lemma_nothing_else_equals_nil(self@[k]);
                    }
                }
                if !matched {
                    proof {
                        let k = self.keys[i as int]@.key();
                        assert(!(is_live(other@, k) && value_eq(self@[k], other@[k])));
                        lemma_table_eq(self@, other@);
                    }
                    return false;
                }
            }
            i += 1;
        }
        let mut j: usize = 0;
        while j < other.keys.len()
            invariant
                j <= other.keys.len(),
                other.keys.len() == other.values.len(),
                distinct_keys(other.keys@),
                self@.dom().finite(),
                other@.dom().finite(),
                forall|b: int|
                    0 <= b < j && !value_view(#[trigger] other.values[b]).is_nil() ==> is_live(
                        self@,
                        other.keys[b]@.key(),
                    ),
            decreases other.keys.len() - j,
        {
            if !other.values[j].is_nil() {
                let held = match self.get(&other.keys[j]) {
                    Some(ours) => !ours.is_nil(),
                    None => false,
                };
                if !held {
                    proof {
                        lemma_entries_view(other.keys@, other.values@);
                        let k = other.keys[j as int]@.key();
                        assert(other@.contains_key(k));
                        assert(other@[k] == value_view(other.values[j as int]));
                        assert(is_live(other@, k) && !is_live(self@, k));
                        lemma_table_eq(self@, other@);
                    }
                    return false;
                }
            }
            j += 1;
        }
        proof {
            lemma_entries_view(self.keys@, self.values@);
            lemma_entries_view(other.keys@, other.values@);
            assert forall|k: PrimitiveView|
                #![trigger self@.contains_key(k)]
                #![trigger other@.contains_key(k)]
                is_live(self@, k) == is_live(other@, k) && (is_live(self@, k) ==> value_eq(
                    self@[k],
                    other@[k],
                )) by {
                if is_live(self@, k) {
                    let a = choose|a: int|
                        0 <= a < self.keys.len() && (#[trigger] self.keys[a])@.key() == k;
                    assert(!value_view(self.values[a]).is_nil());
                }
                if is_live(other@, k) {
                    let b = choose|b: int|
                        0 <= b < other.keys.len() && (#[trigger] other.keys[b])@.key() == k;
                    assert(!value_view(other.values[b]).is_nil());
                }
            }
            lemma_table_eq(self@, other@);
        }
        true
    }

    /// The slot of a key, to be read and overwritten in place. A key that
    /// was not bound is bound to nil first.
    pub fn get_mut(&mut self, key: Primitive) -> (slot: &mut Value)
        ensures
            slot@ == (if old(self)@.contains_key(key@.key()) {
                old(self)@[key@.key()]
            } else {
                ValueView::nil()
            }),
            final(self)@ == old(self)@.insert(key@.key(), final(slot)@),
    {
        proof {
            use_type_invariant(&*self);
            lemma_entries_view(self.keys@, self.values@);
        }
        let key = key.into_key();
        let found = self.find(&key);
        let i = match found {
            Some(i) => i,
            None => {
                let (mut keys, mut values) = self.take_entries();
                let value = Value::nil();
                proof {
                    lemma_entries_push(keys@, values@, key, value);
                }
                keys.push(key);
                values.push(value);
                let i = keys.len() - 1;
                *self = Table { keys, values };
                i
            },
        };
        proof {
            let keys = self.keys@;
            let values = self.values@;
            assert forall|v: Value| #![trigger values.update(i as int, v)]
                entries_view(keys, values.update(i as int, v)) == entries_view(keys, values).insert(
                    keys[i as int]@.key(),
                    value_view(v),
                ) by {
                lemma_entries_update(keys, values, i as int, v);
            }
            lemma_entries_view(keys, values);
        }
        &mut self.values[i]
    }
}

/// What pairs bind depends on what their keys and values are, not on how
/// they are held.
pub proof fn lemma_entries_alike(
    keys: Seq<Primitive>,
    values: Seq<Value>,
    other_keys: Seq<Primitive>,
    other_values: Seq<Value>,
)
    requires
        keys.len() == other_keys.len(),
        values.len() == other_values.len(),
        forall|i: int| 0 <= i < keys.len() ==> (#[trigger] keys[i])@ == other_keys[i]@,
        forall|i: int|
            0 <= i < values.len() ==> value_view(#[trigger] values[i]) == value_view(
                other_values[i],
            ),
    ensures
        entries_view(keys, values) == entries_view(other_keys, other_values),
    decreases values.len(),
{
    if values.len() > 0 && keys.len() > 0 {
        lemma_entries_alike(
            keys.drop_last(),
            values.drop_last(),
            other_keys.drop_last(),
            other_values.drop_last(),
        );
    }
}

/// A key that is bound to nil is as good as not bound: for what the table
/// lists when it is walked, for whether the table counts as true, and for
/// whether the table equals another or another equals it. The slot is
/// there all the same: binding the key again gives what binding it in the
/// first place would have given.
pub proof fn lemma_nil_is_absent(
    m: Map<PrimitiveView, ValueView>,
    k: PrimitiveView,
    other: Map<PrimitiveView, ValueView>,
)
    requires
        m.dom().finite(),
        other.dom().finite(),
    ensures
        m.insert(k, ValueView::nil()).contains_key(k),
        !live(m.insert(k, ValueView::nil())).contains_key(k),
        live(m.insert(k, ValueView::nil())) == live(m.remove(k)),
        live(m.insert(k, ValueView::nil())) == live(m).remove(k),
        inhabited(m.insert(k, ValueView::nil())) == inhabited(m.remove(k)),
        value_eq(ValueView::Table(m.insert(k, ValueView::nil())), ValueView::Table(other))
            == value_eq(ValueView::Table(m.remove(k)), ValueView::Table(other)),
        value_eq(ValueView::Table(other), ValueView::Table(m.insert(k, ValueView::nil())))
            == value_eq(ValueView::Table(other), ValueView::Table(m.remove(k))),
        forall|v: ValueView| #[trigger]
            m.insert(k, ValueView::nil()).insert(k, v) == m.insert(k, v),
{
    let cleared = m.insert(k, ValueView::nil());
    let removed = m.remove(k);
    assert(live(cleared) =~= live(removed));
    assert(live(cleared) =~= live(m).remove(k));
    assert forall|v: ValueView| #[trigger] cleared.insert(k, v) == m.insert(k, v) by {
        assert(cleared.insert(k, v) =~= m.insert(k, v));
    }
    assert(inhabited(cleared) == inhabited(removed)) by {
        if inhabited(cleared) {
            let w = choose|w: PrimitiveView| #[trigger] cleared.contains_key(w) && !cleared[w].is_nil();
            assert(removed.contains_key(w) && !removed[w].is_nil());
        }
        if inhabited(removed) {
            let w = choose|w: PrimitiveView| #[trigger] removed.contains_key(w) && !removed[w].is_nil();
            assert(cleared.contains_key(w) && !cleared[w].is_nil());
        }
    }
    lemma_table_eq(cleared, other);
    lemma_table_eq(removed, other);
    lemma_table_eq(other, cleared);
    lemma_table_eq(other, removed);
    assert forall|w: PrimitiveView|
        is_live(cleared, w) == is_live(removed, w) && (is_live(cleared, w) ==> cleared[w]
            == removed[w]) by {}
    assert(value_eq(ValueView::Table(cleared), ValueView::Table(other)) == value_eq(
        ValueView::Table(removed),
        ValueView::Table(other),
    )) by {
        if value_eq(ValueView::Table(cleared), ValueView::Table(other)) {
            assert forall|w: PrimitiveView|
                #![trigger removed.contains_key(w)]
                #![trigger other.contains_key(w)]
                is_live(removed, w) == is_live(other, w) && (is_live(removed, w) ==> value_eq(
                    removed[w],
                    other[w],
                )) by {
                assert(is_live(cleared, w) == is_live(other, w));
                assert(cleared.contains_key(w) || !is_live(removed, w));
            }
        }
        if value_eq(ValueView::Table(removed), ValueView::Table(other)) {
            assert forall|w: PrimitiveView|
                #![trigger cleared.contains_key(w)]
                #![trigger other.contains_key(w)]
                is_live(cleared, w) == is_live(other, w) && (is_live(cleared, w) ==> value_eq(
                    cleared[w],
                    other[w],
                )) by {
                assert(is_live(removed, w) == is_live(other, w));
                assert(removed.contains_key(w) || !is_live(cleared, w));
            }
        }
    }
    assert(value_eq(ValueView::Table(other), ValueView::Table(cleared)) == value_eq(
        ValueView::Table(other),
        ValueView::Table(removed),
    )) by {
        if value_eq(ValueView::Table(other), ValueView::Table(cleared)) {
            assert forall|w: PrimitiveView|
                #![trigger other.contains_key(w)]
                #![trigger removed.contains_key(w)]
                is_live(other, w) == is_live(removed, w) && (is_live(other, w) ==> value_eq(
                    other[w],
                    removed[w],
                )) by {
                assert(is_live(other, w) == is_live(cleared, w));
                assert(cleared.contains_key(w) || !is_live(removed, w));
            }
        }
        if value_eq(ValueView::Table(other), ValueView::Table(removed)) {
            assert forall|w: PrimitiveView|
                #![trigger other.contains_key(w)]
                #![trigger cleared.contains_key(w)]
                is_live(other, w) == is_live(cleared, w) && (is_live(other, w) ==> value_eq(
                    other[w],
                    cleared[w],
                )) by {
                assert(is_live(other, w) == is_live(removed, w));
                assert(removed.contains_key(w) || !is_live(cleared, w));
            }
        }
    }
}

/// Whatever a key is bound to is what one of the values is.
proof fn lemma_entries_values(keys: Seq<Primitive>, values: Seq<Value>)
    ensures
        forall|k: PrimitiveView| #[trigger]
            entries_view(keys, values).contains_key(k) ==> exists|i: int|
                0 <= i < values.len() && entries_view(keys, values)[k] == value_view(
                    #[trigger] values[i],
                ),
    decreases values.len(),
{
    if values.len() > 0 && keys.len() > 0 {
        let front = values.drop_last();
        lemma_entries_values(keys.drop_last(), front);
        assert forall|k: PrimitiveView| #[trigger]
            entries_view(keys, values).contains_key(k) implies exists|i: int|
            0 <= i < values.len() && entries_view(keys, values)[k] == value_view(
                #[trigger] values[i],
            ) by {
            if k == keys.last()@.key() {
                assert(entries_view(keys, values)[k] == value_view(values[values.len() - 1]));
            } else {
                let i = choose|i: int|
                    0 <= i < front.len() && entries_view(keys.drop_last(), front)[k] == value_view(
                        #[trigger] front[i],
                    );
                assert(front[i] == values[i]);
            }
        }
    }
}

/// Every value equals itself.
pub proof fn lemma_value_eq_reflexive(v: Value)
    ensures
        value_eq(v@, v@),
    decreases v,
{
    match v {
        Value::Table(t) => {
            let m = table_view(t);
            lemma_entries_finite(t.keys@, t.values@);
            lemma_entries_values(t.keys@, t.values@);
            lemma_table_eq(m, m);
            assert forall|k: PrimitiveView|
                #![trigger m.contains_key(k)]
                is_live(m, k) == is_live(m, k) && (is_live(m, k) ==> value_eq(m[k], m[k])) by {
                if is_live(m, k) {
                    let i = choose|i: int|
                        0 <= i < t.values@.len() && m[k] == value_view(#[trigger] t.values@[i]);
                    lemma_value_eq_reflexive(t.values@[i]);
                }
            }
        },
        _ => {},
    }
}

/// Whether one value equals another does not depend on which of the two
/// comes first.
pub proof fn lemma_value_eq_symmetric(a: Value, b: Value)
    ensures
        value_eq(a@, b@) == value_eq(b@, a@),
    decreases a,
{
    match (a, b) {
        (Value::Table(t), Value::Table(u)) => {
            let m = table_view(t);
            let n = table_view(u);
            lemma_entries_finite(t.keys@, t.values@);
            lemma_entries_finite(u.keys@, u.values@);
            lemma_entries_values(t.keys@, t.values@);
            lemma_entries_values(u.keys@, u.values@);
            lemma_table_eq(m, n);
            lemma_table_eq(n, m);
            assert forall|k: PrimitiveView| is_live(m, k) && is_live(n, k) implies value_eq(
                m[k],
                n[k],
            ) == value_eq(n[k], m[k]) by {
                let i = choose|i: int|
                    0 <= i < t.values@.len() && m[k] == value_view(#[trigger] t.values@[i]);
                let j = choose|j: int|
                    0 <= j < u.values@.len() && n[k] == value_view(#[trigger] u.values@[j]);
                lemma_value_eq_symmetric(t.values@[i], u.values@[j]);
            }
            if value_eq(ValueView::Table(m), ValueView::Table(n)) {
                assert forall|k: PrimitiveView|
                    #![trigger n.contains_key(k)]
                    #![trigger m.contains_key(k)]
                    is_live(n, k) == is_live(m, k) && (is_live(n, k) ==> value_eq(n[k], m[k])) by {
                    assert(is_live(m, k) == is_live(n, k));
                    if is_live(n, k) {
                        assert(m.contains_key(k));
                        assert(value_eq(m[k], n[k]));
                    }
                }
            }
            if value_eq(ValueView::Table(n), ValueView::Table(m)) {
                assert forall|k: PrimitiveView|
                    #![trigger m.contains_key(k)]
                    #![trigger n.contains_key(k)]
                    is_live(m, k) == is_live(n, k) && (is_live(m, k) ==> value_eq(m[k], n[k])) by {
                    assert(is_live(n, k) == is_live(m, k));
                    if is_live(m, k) {
                        assert(n.contains_key(k));
                        assert(value_eq(n[k], m[k]));
                    }
                }
            }
        },
        _ => {},
    }
}

/// Values that equal one value equal each other.
pub proof fn lemma_value_eq_transitive(a: Value, b: Value, c: Value)
    requires
        value_eq(a@, b@),
        value_eq(b@, c@),
    ensures
        value_eq(a@, c@),
    decreases a,
{
    match (a, b, c) {
        (Value::Table(t), Value::Table(u), Value::Table(w)) => {
            let m = table_view(t);
            let n = table_view(u);
            let o = table_view(w);
            lemma_entries_finite(t.keys@, t.values@);
            lemma_entries_finite(u.keys@, u.values@);
            lemma_entries_finite(w.keys@, w.values@);
            lemma_entries_values(t.keys@, t.values@);
            lemma_entries_values(u.keys@, u.values@);
            lemma_entries_values(w.keys@, w.values@);
            lemma_table_eq(m, n);
            lemma_table_eq(n, o);
            lemma_table_eq(m, o);
            assert forall|k: PrimitiveView|
                #![trigger m.contains_key(k)]
                #![trigger o.contains_key(k)]
                is_live(m, k) == is_live(o, k) && (is_live(m, k) ==> value_eq(m[k], o[k])) by {
                assert(is_live(m, k) == is_live(n, k));
                assert(n.contains_key(k) || !is_live(n, k));
                assert(is_live(n, k) == is_live(o, k));
                if is_live(m, k) {
                    assert(m.contains_key(k));
                    let i = choose|i: int|
                        0 <= i < t.values@.len() && m[k] == value_view(#[trigger] t.values@[i]);
                    let j = choose|j: int|
                        0 <= j < u.values@.len() && n[k] == value_view(#[trigger] u.values@[j]);
                    let l = choose|l: int|
                        0 <= l < w.values@.len() && o[k] == value_view(#[trigger] w.values@[l]);
                    lemma_value_eq_transitive(t.values@[i], u.values@[j], w.values@[l]);
                }
            }
        },
        _ => {},
    }
}

/// The bound keys are finitely many, however keys and values pair up.
proof fn lemma_entries_finite(keys: Seq<Primitive>, values: Seq<Value>)
    ensures
        entries_view(keys, values).dom().finite(),
    decreases values.len(),
{
    if values.len() > 0 && keys.len() > 0 {
        lemma_entries_finite(keys.drop_last(), values.drop_last());
    }
}

impl Clone for Table {
    fn clone(&self) -> (t: Table)
        ensures
            t@ == self@,
    {
        self.copy()
    }
}

impl PartialEq for Table {
    fn eq(&self, other: &Table) -> (r: bool) {
        self.equals(other)
    }
}

impl vstd::std_specs::cmp::PartialEqSpecImpl for Table {
    open spec fn obeys_eq_spec() -> bool {
        true
    }

    /// Whether the two tables have the same live keys and bind each of
    /// them to equal values.
    open spec fn eq_spec(&self, other: &Table) -> bool {
        value_eq(ValueView::Table(self@), ValueView::Table(other@))
    }
}

impl Eq for Table {

}

impl IntoIterator for Table {
    type Item = (Primitive, Value);

    type IntoIter = std::vec::IntoIter<(Primitive, Value)>;

    /// Walks the live bindings of the table, in no particular order.
    fn into_iter(self) -> (iter: std::vec::IntoIter<(Primitive, Value)>)
        ensures
            lists(pair_views(vstd::std_specs::iter::IteratorSpec::remaining(&iter)), live(self@)),
    {
        let pairs: Vec<(Primitive, Value)> = self.into_pairs();
        pairs.into_iter()
    }
}

} // verus!
