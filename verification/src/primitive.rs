use core::cmp::Ordering;
use crate::number::lemma_normalized_rank;
use crate::number::normalized;
use crate::number::order;
use crate::number::Number;
use crate::types::Type;
use crate::types::TypeOf;
use vstd::prelude::*;
use vstd::std_specs::cmp::PartialEqSpec;

verus! {

/// A value without parts: nil, a truth value, a number or a string.
#[derive(Debug, Hash)]
pub enum Primitive {
    Nil,
    Bool(bool),
    Number(Number),
    String(String),
}

/// What a primitive is: its variant, and a number's bit pattern or a
/// string's characters.
pub enum PrimitiveView {
    Nil,
    Bool(bool),
    Number(u64),
    String(Seq<char>),
}

impl PrimitiveView {
    /// The one primitive that stands for all those equal to this one: a
    /// number is replaced by its normalized bit pattern, so that every NaN
    /// has the same key and so have the two zeros.
    pub open spec fn key(self) -> PrimitiveView {
        match self {
            PrimitiveView::Number(bits) => PrimitiveView::Number(normalized(bits)),
            _ => self,
        }
    }
}

impl View for Primitive {
    type V = PrimitiveView;

    open spec fn view(&self) -> PrimitiveView {
        match self {
            Primitive::Nil => PrimitiveView::Nil,
            Primitive::Bool(b) => PrimitiveView::Bool(*b),
            Primitive::Number(n) => PrimitiveView::Number(n@),
            Primitive::String(s) => PrimitiveView::String(s@),
        }
    }
}

impl Primitive {
    /// Whether this is nil.
    pub fn is_nil(&self) -> (r: bool)
        ensures
            r == (self@ == PrimitiveView::Nil),
    {
        match self {
            Primitive::Nil => true,
            _ => false,
        }
    }

    /// Whether this is a truth value.
    pub fn is_bool(&self) -> (r: bool)
        ensures
            r == (self@ is Bool),
    {
        match self {
            Primitive::Bool(_) => true,
            _ => false,
        }
    }

    /// Whether this is a number.
    pub fn is_number(&self) -> (r: bool)
        ensures
            r == (self@ is Number),
    {
        match self {
            Primitive::Number(_) => true,
            _ => false,
        }
    }

    /// Whether this is a string.
    pub fn is_string(&self) -> (r: bool)
        ensures
            r == (self@ is String),
    {
        match self {
            Primitive::String(_) => true,
            _ => false,
        }
    }

    /// The primitive that stands for all those equal to this one.
    pub fn into_key(self) -> (k: Primitive)
        ensures
            k@ == self@.key(),
    {
        match self {
            Primitive::Number(n) => Primitive::Number(n.normalized()),
            other => other,
        }
    }

    /// Whether two primitives are equal: of the same variant, and with
    /// equal payloads, where numbers are equal as numbers are.
    pub fn same(&self, other: &Primitive) -> (r: bool)
        ensures
            r == (self@.key() == other@.key()),
    {
        match (self, other) {
            (Primitive::Nil, Primitive::Nil) => true,
            (Primitive::Bool(a), Primitive::Bool(b)) => *a == *b,
            (Primitive::Number(a), Primitive::Number(b)) => {
                let x = a.normalized();
                let y = b.normalized();
                x.to_bits() == y.to_bits()
            },
            (Primitive::String(a), Primitive::String(b)) => {
                let r = *a == *b;
                proof {
                    assert(a@ == b@ <==> PrimitiveView::String(a@) == PrimitiveView::String(b@));
                }
                r
            },
            _ => false,
        }
    }
}

impl Clone for Primitive {
    fn clone(&self) -> (r: Primitive)
        ensures
            r@ == self@,
    {
        match self {
            Primitive::Nil => Primitive::Nil,
            Primitive::Bool(b) => Primitive::Bool(*b),
            Primitive::Number(n) => Primitive::Number(*n),
            Primitive::String(s) => Primitive::String(s.clone()),
        }
    }
}

impl Default for Primitive {
    fn default() -> (r: Primitive)
        ensures
            r@ == PrimitiveView::Nil,
    {
        Primitive::Nil
    }
}

impl PartialEq for Primitive {
    fn eq(&self, other: &Primitive) -> (r: bool) {
        self.same(other)
    }
}

impl vstd::std_specs::cmp::PartialEqSpecImpl for Primitive {
    open spec fn obeys_eq_spec() -> bool {
        true
    }

    /// Two primitives are equal when they have the same key.
    open spec fn eq_spec(&self, other: &Primitive) -> bool {
        self@.key() == other@.key()
    }
}

impl Eq for Primitive {

}

impl TypeOf for Primitive {
    fn type_of(&self) -> (t: Type)
        ensures
            t == primitive_type(self@),
    {
        match self {
            Primitive::Nil => Type::Nil,
            Primitive::Bool(_) => Type::Bool,
            Primitive::Number(_) => Type::Number,
            Primitive::String(_) => Type::String,
        }
    }
}

/// The script-level type of a primitive.
pub open spec fn primitive_type(p: PrimitiveView) -> Type {
    match p {
        PrimitiveView::Nil => Type::Nil,
        PrimitiveView::Bool(_) => Type::Bool,
        PrimitiveView::Number(_) => Type::Number,
        PrimitiveView::String(_) => Type::String,
    }
}

/// The place of a character among all characters.
pub open spec fn code_point(c: char) -> int {
    c as int
}

/// The place of a primitive's kind among the kinds: nil, truth values,
/// numbers, strings.
pub open spec fn kind_rank(p: PrimitiveView) -> int {
    match p {
        PrimitiveView::Nil => 0,
        PrimitiveView::Bool(_) => 1,
        PrimitiveView::Number(_) => 2,
        PrimitiveView::String(_) => 3,
    }
}

/// How two strings stand to each other: as their first characters that
/// differ do, and a string before every string that continues it.
pub open spec fn text_order(a: Seq<char>, b: Seq<char>) -> Ordering
    decreases a.len(),
{
    if a.len() == 0 && b.len() == 0 {
        Ordering::Equal
    } else if a.len() == 0 {
        Ordering::Less
    } else if b.len() == 0 {
        Ordering::Greater
    } else if code_point(a[0]) < code_point(b[0]) {
        Ordering::Less
    } else if code_point(a[0]) > code_point(b[0]) {
        Ordering::Greater
    } else {
        text_order(a.skip(1), b.skip(1))
    }
}

/// How two primitives stand to each other: by kind first, then false
/// before true, numbers in their total order, strings character by
/// character.
pub open spec fn primitive_order(a: PrimitiveView, b: PrimitiveView) -> Ordering {
    if kind_rank(a) < kind_rank(b) {
        Ordering::Less
    } else if kind_rank(a) > kind_rank(b) {
        Ordering::Greater
    } else {
        match (a, b) {
            (PrimitiveView::Bool(x), PrimitiveView::Bool(y)) => if x == y {
                Ordering::Equal
            } else if y {
                Ordering::Less
            } else {
                Ordering::Greater
            },
            (PrimitiveView::Number(x), PrimitiveView::Number(y)) => order(x, y),
            (PrimitiveView::String(x), PrimitiveView::String(y)) => text_order(x, y),
            _ => Ordering::Equal,
        }
    }
}

/// Compares two strings, by `Ord::cmp` of the standard library, which
/// orders strings by their bytes, and so by their characters' places in
/// the code charts.
#[verifier::external_body]
fn compare_text(a: &String, b: &String) -> (o: Ordering)
    ensures
        o == text_order(a@, b@),
{
    a.cmp(b)
}

impl PartialOrd for Primitive {
    fn partial_cmp(&self, other: &Primitive) -> (r: Option<Ordering>) {
        match (self, other) {
            (Primitive::Nil, Primitive::Nil) => Some(Ordering::Equal),
            (Primitive::Nil, _) => Some(Ordering::Less),
            (Primitive::Bool(_), Primitive::Nil) => Some(Ordering::Greater),
            (Primitive::Bool(x), Primitive::Bool(y)) => Some(
                if *x == *y {
                    Ordering::Equal
                } else if *y {
                    Ordering::Less
                } else {
                    Ordering::Greater
                },
            ),
            (Primitive::Bool(_), _) => Some(Ordering::Less),
            (Primitive::Number(x), Primitive::Number(y)) => Some(x.total_order(y)),
            (Primitive::Number(_), Primitive::String(_)) => Some(Ordering::Less),
            (Primitive::Number(_), _) => Some(Ordering::Greater),
            (Primitive::String(x), Primitive::String(y)) => Some(compare_text(x, y)),
            (Primitive::String(_), _) => Some(Ordering::Greater),
        }
    }
}

impl vstd::std_specs::cmp::PartialOrdSpecImpl for Primitive {
    open spec fn obeys_partial_cmp_spec() -> bool {
        true
    }

    /// Any two primitives are comparable.
    open spec fn partial_cmp_spec(&self, other: &Primitive) -> Option<Ordering> {
        Some(primitive_order(self@, other@))
    }
}

/// Two strings are in no order exactly when they are the same.
pub proof fn lemma_text_order_equal(a: Seq<char>, b: Seq<char>)
    ensures
        text_order(a, b) == Ordering::Equal <==> a == b,
    decreases a.len(),
{
    if a.len() > 0 && b.len() > 0 {
        lemma_text_order_equal(a.skip(1), b.skip(1));
        if a[0] == b[0] && a.skip(1) == b.skip(1) {
            assert(a =~= seq![a[0]] + a.skip(1));
            assert(b =~= seq![b[0]] + b.skip(1));
        }
        if a == b {
            assert(a.skip(1) == b.skip(1));
        }
    } else if a.len() == 0 && b.len() == 0 {
        assert(a =~= b);
    }
}

/// The order of primitives agrees with their equality: two primitives are
/// in no order exactly when they are equal.
pub proof fn lemma_order_agrees_with_equality(a: Primitive, b: Primitive)
    ensures
        primitive_order(a@, b@) == Ordering::Equal <==> a.eq_spec(&b),
{
    match (a@, b@) {
        (PrimitiveView::Number(x), PrimitiveView::Number(y)) => {
            lemma_normalized_rank(x, y);
        },
        (PrimitiveView::String(x), PrimitiveView::String(y)) => {
            lemma_text_order_equal(x, y);
        },
        _ => {},
    }
}

} // verus!
