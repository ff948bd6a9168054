//! Records: the values that flow through the graph.

use vstd::prelude::*;
use vstd::std_specs::cmp::PartialEqSpecImpl;

verus! {

/// A record. Tuples are nested pairs; a text is the list of its characters,
/// each paired with the rest, ending in `Unit`.
#[derive(Debug, Hash)]
pub enum Value {
    Unit,
    Bool(bool),
    Nat(usize),
    Int(isize),
    Char(char),
    Pair(Box<Value>, Box<Value>),
}

impl Clone for Value {
    fn clone(&self) -> (r: Self)
        ensures
            r == *self,
        decreases self,
    {
        match self {
            Value::Unit => Value::Unit,
            Value::Bool(a) => Value::Bool(*a),
            Value::Nat(a) => Value::Nat(*a),
            Value::Int(a) => Value::Int(*a),
            Value::Char(a) => Value::Char(*a),
            Value::Pair(a, b) => Value::Pair(Box::new((**a).clone()), Box::new((**b).clone())),
        }
    }
}

impl PartialEq for Value {
    fn eq(&self, other: &Self) -> (r: bool) {
        self.equals(other)
    }
}

impl Eq for Value {

}

impl PartialEqSpecImpl for Value {
    open spec fn obeys_eq_spec() -> bool {
        true
    }

    open spec fn eq_spec(&self, other: &Self) -> bool {
        *self == *other
    }
}

/// The position of a value's variant in the order of values.
pub open spec fn rank(v: Value) -> int {
    match v {
        Value::Unit => 0,
        Value::Bool(_) => 1,
        Value::Nat(_) => 2,
        Value::Int(_) => 3,
        Value::Char(_) => 4,
        Value::Pair(_, _) => 5,
    }
}

/// The strict total order of values: by variant first, then by content, pairs
/// lexicographically.
pub open spec fn value_lt(a: Value, b: Value) -> bool
    decreases a,
{
    match (a, b) {
        (Value::Bool(x), Value::Bool(y)) => !x && y,
        (Value::Nat(x), Value::Nat(y)) => x < y,
        (Value::Int(x), Value::Int(y)) => x < y,
        (Value::Char(x), Value::Char(y)) => (x as u32) < (y as u32),
        (Value::Pair(a1, a2), Value::Pair(b1, b2)) => value_lt(*a1, *b1) || (*a1 == *b1
            && value_lt(*a2, *b2)),
        _ => rank(a) < rank(b),
    }
}

/// No value is below itself.
pub proof fn lemma_lt_irreflexive(a: Value)
    ensures
        !value_lt(a, a),
    decreases a,
{
    match a {
        Value::Pair(a1, a2) => {
            lemma_lt_irreflexive(*a1);
            lemma_lt_irreflexive(*a2);
        },
        _ => {},
    }
}

/// The order of values is transitive.
pub proof fn lemma_lt_transitive(a: Value, b: Value, c: Value)
    requires
        value_lt(a, b),
        value_lt(b, c),
    ensures
        value_lt(a, c),
    decreases a,
{
    match (a, b, c) {
        (Value::Pair(a1, a2), Value::Pair(b1, b2), Value::Pair(c1, c2)) => {
            if value_lt(*a1, *b1) && value_lt(*b1, *c1) {
                lemma_lt_transitive(*a1, *b1, *c1);
            }
            if *a1 == *b1 && *b1 == *c1 {
                lemma_lt_irreflexive(*a1);
                lemma_lt_transitive(*a2, *b2, *c2);
            }
        },
        _ => {},
    }
}

/// Of two different values one is below the other.
pub proof fn lemma_lt_total(a: Value, b: Value)
    ensures
        a == b || value_lt(a, b) || value_lt(b, a),
    decreases a,
{
    match (a, b) {
        (Value::Pair(a1, a2), Value::Pair(b1, b2)) => {
            lemma_lt_total(*a1, *b1);
            lemma_lt_total(*a2, *b2);
        },
        (Value::Char(x), Value::Char(y)) => {
            assert((x as u32) == (y as u32) ==> x == y);
        },
        _ => {},
    }
}

/// The text of a sequence of characters.
pub open spec fn text_of(s: Seq<char>) -> Value
    decreases s.len(),
{
    if s.len() == 0 {
        Value::Unit
    } else {
        Value::Pair(Box::new(Value::Char(s.first())), Box::new(text_of(s.drop_first())))
    }
}

/// The number of elements of a list: of pairs nested to the right.
pub open spec fn list_len(v: Value) -> nat
    decreases v,
{
    match v {
        Value::Pair(_, rest) => 1 + list_len(*rest),
        _ => 0,
    }
}

impl Value {
    /// The first component of a pair; any other value stands for itself.
    pub open spec fn first(self) -> Value {
        match self {
            Value::Pair(a, _) => *a,
            _ => self,
        }
    }

    /// The second component of a pair; any other value has `Unit` there.
    pub open spec fn second(self) -> Value {
        match self {
            Value::Pair(_, b) => *b,
            _ => Value::Unit,
        }
    }

    pub open spec fn pair_of(a: Value, b: Value) -> Value {
        Value::Pair(Box::new(a), Box::new(b))
    }

    pub fn equals(&self, other: &Value) -> (r: bool)
        ensures
            r == (*self == *other),
        decreases self,
    {
        match (self, other) {
            (Value::Unit, Value::Unit) => true,
            (Value::Bool(a), Value::Bool(b)) => *a == *b,
            (Value::Nat(a), Value::Nat(b)) => *a == *b,
            (Value::Int(a), Value::Int(b)) => *a == *b,
            (Value::Char(a), Value::Char(b)) => *a == *b,
            (Value::Pair(a1, b1), Value::Pair(a2, b2)) => a1.equals(a2) && b1.equals(b2),
            _ => false,
        }
    }

    fn variant_rank(&self) -> (r: u8)
        ensures
            r == rank(*self),
    {
        match self {
            Value::Unit => 0,
            Value::Bool(_) => 1,
            Value::Nat(_) => 2,
            Value::Int(_) => 3,
            Value::Char(_) => 4,
            Value::Pair(_, _) => 5,
        }
    }

    /// Whether this value comes before the other in the order of values.
    pub fn less(&self, other: &Value) -> (r: bool)
        ensures
            r == value_lt(*self, *other),
        decreases self,
    {
        match (self, other) {
            (Value::Bool(a), Value::Bool(b)) => !*a && *b,
            (Value::Nat(a), Value::Nat(b)) => *a < *b,
            (Value::Int(a), Value::Int(b)) => *a < *b,
            (Value::Char(a), Value::Char(b)) => (*a as u32) < (*b as u32),
            (Value::Pair(a1, a2), Value::Pair(b1, b2)) => {
                if a1.less(b1) {
                    true
                } else if a1.equals(b1) {
                    a2.less(b2)
                } else {
                    false
                }
            },
            _ => self.variant_rank() < other.variant_rank(),
        }
    }

    pub fn pair(a: Value, b: Value) -> (r: Value)
        ensures
            r == Value::pair_of(a, b),
    {
        Value::Pair(Box::new(a), Box::new(b))
    }

    pub fn triple(a: Value, b: Value, c: Value) -> (r: Value)
        ensures
            r == Value::pair_of(a, Value::pair_of(b, c)),
    {
        Value::pair(a, Value::pair(b, c))
    }

    /// A copy of the first component.
    pub fn fst(&self) -> (r: Value)
        ensures
            r == self.first(),
    {
        match self {
            Value::Pair(a, _) => (**a).clone(),
            _ => self.clone(),
        }
    }

    /// A copy of the second component.
    pub fn snd(&self) -> (r: Value)
        ensures
            r == self.second(),
    {
        match self {
            Value::Pair(_, b) => (**b).clone(),
            _ => Value::Unit,
        }
    }

    /// The pair with its components exchanged; any other value is kept.
    pub fn swapped(&self) -> (r: Value)
        ensures
            r == (match *self {
                Value::Pair(a, b) => Value::pair_of(*b, *a),
                _ => *self,
            }),
    {
        match self {
            Value::Pair(a, b) => Value::pair((**b).clone(), (**a).clone()),
            _ => self.clone(),
        }
    }

    /// The text of a vector of characters.
    pub fn text(chars: &Vec<char>) -> (r: Value)
        ensures
            r == text_of(chars@),
    {
        let mut out = Value::Unit;
        let mut i: usize = chars.len();
        proof {
            assert(chars@.subrange(chars.len() as int, chars.len() as int).len() == 0);
        }
        while i > 0
            invariant
                0 <= i <= chars.len(),
                out == text_of(chars@.subrange(i as int, chars.len() as int)),
            decreases i,
        {
            i = i - 1;
            proof {
                let cur = chars@.subrange(i as int, chars.len() as int);
                assert(cur.drop_first() == chars@.subrange(i as int + 1, chars.len() as int));
                assert(cur.first() == chars@[i as int]);
            }
            out = Value::pair(Value::Char(chars[i]), out);
        }
        proof {
            assert(chars@.subrange(0, chars.len() as int) == chars@);
        }
        out
    }

    /// The number of elements of a list, as far as it can be counted.
    pub fn length(&self) -> (r: usize)
        ensures
            r == if list_len(*self) > usize::MAX { usize::MAX } else { list_len(*self) as usize },
        decreases self,
    {
        match self {
            Value::Pair(_, rest) => {
                let n = rest.length();
                if n < usize::MAX {
                    n + 1
                } else {
                    usize::MAX
                }
            },
            _ => 0,
        }
    }
}

} // verus!
