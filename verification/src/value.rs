//! The literal value model of the markup grammar: a recursive tagged union
//! with structural equality and no implicit coercion between variants.

use vstd::prelude::*;

verus! {

broadcast use vstd::std_specs::vec::axiom_vec_index_decreases;

/// A decimal literal such as `2.5`, kept exactly as written: `mantissa` is the
/// digit string read as an integer (signed), `scale` is the number of digits
/// after the decimal point, so the denoted number is `mantissa / 10^scale`.
///
/// Equality is structural, on the literal as written: `2.50` and `2.5` are
/// distinct values.
#[derive(Debug, Clone, Copy, PartialEq, Eq, Structural)]
pub struct Decimal {
    pub mantissa: i64,
    pub scale: u32,
}

impl Decimal {
    pub fn new(mantissa: i64, scale: u32) -> (r: Decimal)
        ensures
            r.mantissa == mantissa,
            r.scale == scale,
    {
        Decimal { mantissa, scale }
    }
}

/// A literal attribute value.
///
/// `Default` is a sentinel meaning "no override, use the inherited value";
/// `Percentage` stores the raw integer coefficient (`69%` is `Percentage(69)`,
/// not a fraction), with no range check; `Tuple` elements may mix variants
/// freely, including nested tuples.
#[derive(Debug)]
pub enum Value {
    Default,
    String(String),
    Integer(i64),
    Float(Decimal),
    Percentage(i64),
    Tuple(Vec<Value>),
}

/// Mathematical model of a [`Value`].
pub enum ValueSpec {
    Default,
    String(Seq<char>),
    Integer(int),
    Float { mantissa: int, scale: int },
    Percentage(int),
    Tuple(Seq<ValueSpec>),
}

impl Value {
    pub open spec fn view(self) -> ValueSpec
        decreases self,
    {
        match self {
            Value::Default => ValueSpec::Default,
            Value::String(s) => ValueSpec::String(s@),
            Value::Integer(i) => ValueSpec::Integer(i as int),
            Value::Float(d) => ValueSpec::Float {
                mantissa: d.mantissa as int,
                scale: d.scale as int,
            },
            Value::Percentage(p) => ValueSpec::Percentage(p as int),
            Value::Tuple(vs) => ValueSpec::Tuple(
                Seq::new(
                    vs@.len(),
                    |i: int|
                        if 0 <= i < vs.len() {
                            vs[i].view()
                        } else {
                            ValueSpec::Default
                        },
                ),
            ),
        }
    }

    /// Whether this value is the `Default` sentinel.
    pub fn is_default(&self) -> (r: bool)
        ensures
            r == (self@ is Default),
    {
        match self {
            Value::Default => true,
            _ => false,
        }
    }
}

impl Clone for Value {
    /// Structural copy: the clone has the same model as the source value.
    fn clone(&self) -> (r: Value)
        ensures
            r@ == self@,
        decreases self,
    {
        match self {
            Value::Default => Value::Default,
            Value::String(s) => Value::String(s.clone()),
            Value::Integer(i) => Value::Integer(*i),
            Value::Float(d) => Value::Float(*d),
            Value::Percentage(p) => Value::Percentage(*p),
            Value::Tuple(vs) => {
                let mut out: Vec<Value> = Vec::new();
                let mut i: usize = 0;
                while i < vs.len()
                    invariant
                        *self is Tuple,
                        *vs == (*self)->Tuple_0,
                        i <= vs.len(),
                        out@.len() == i as int,
                        forall|j: int| 0 <= j < i ==> out@[j]@ == vs@[j]@,
                    decreases vs.len() - i,
                {
                    proof {
                        assert(decreases_to!(*self => (*self)->Tuple_0));
                        assert(decreases_to!(*vs => vs[i as int]));
                    }
                    let c = vs[i].clone();
                    out.push(c);
                    i = i + 1;
                }
                let r = Value::Tuple(out);
                proof {
                    assert((r@->Tuple_0) =~= (self@->Tuple_0));
                }
                r
            },
        }
    }
}


impl PartialEq for Value {
    /// Structural equality: two values are equal exactly when their models
    /// are.
    fn eq(&self, other: &Value) -> (r: bool)
        decreases self,
    {
        match (self, other) {
            (Value::Default, Value::Default) => true,
            (Value::String(a), Value::String(b)) => *a == *b,
            (Value::Integer(a), Value::Integer(b)) => *a == *b,
            (Value::Float(a), Value::Float(b)) => *a == *b,
            (Value::Percentage(a), Value::Percentage(b)) => *a == *b,
            (Value::Tuple(a), Value::Tuple(b)) => {
                if a.len() != b.len() {
                    proof {
                        assert(self@->Tuple_0.len() != other@->Tuple_0.len());
                    }
                    false
                } else {
                    let n = a.len();
                    let mut i: usize = 0;
                    while i < n
                        invariant
                            *self is Tuple,
                            *other is Tuple,
                            *a == (*self)->Tuple_0,
                            *b == (*other)->Tuple_0,
                            n == a@.len() == b@.len(),
                            i <= n,
                            forall|k: int| 0 <= k < i ==> a@[k]@ == b@[k]@,
                        decreases n - i,
                    {
                        proof {
                            assert(decreases_to!(*self => (*self)->Tuple_0));
                            assert(decreases_to!(*a => a[i as int]));
                        }
                        let elems_eq = a[i] == b[i];
                        if !elems_eq {
                            proof {
                                assert((self@->Tuple_0)[i as int] == a@[i as int]@);
                                assert((other@->Tuple_0)[i as int] == b@[i as int]@);
                            }
                            return false;
                        }
                        i = i + 1;
                    }
                    proof {
                        assert((self@->Tuple_0) =~= (other@->Tuple_0));
                    }
                    true
                }
            },
            _ => {
                proof {
                    assert(self@ != other@);
                }
                false
            },
        }
    }
}

impl vstd::std_specs::cmp::PartialEqSpecImpl for Value {
    open spec fn obeys_eq_spec() -> bool {
        true
    }

    open spec fn eq_spec(&self, other: &Value) -> bool {
        self@ == other@
    }
}

} // verus!
