use vstd::prelude::*;

use crate::dictionary::Dictionary;
use crate::model::{
    Data, addable, cleared, lemma_list_view, list_view, sum_of, tag_of, views, without_key,
};
use crate::text::{int_or_zero, parse_i32};

verus! {

/// A dynamically typed datum. A float is held as its IEEE-754 binary64 bit pattern.
#[derive(Debug)]
pub enum Value {
    Int(i32),
    Float(u64),
    String(String),
    Bool(bool),
    List(Vec<Value>),
    Dict(Dictionary),
}

/// Why two values could not be added.
#[derive(Debug, PartialEq)]
pub enum AddError {
    /// The operands are not two ints, two floats, two strings or two lists. Holds the type
    /// tags of the left and the right operand.
    Mismatch(String, String),
    /// The sum of two ints lies outside the range of `i32`.
    Overflow,
}

impl View for Value {
    type V = Data;

    open spec fn view(&self) -> Data
        decreases self,
    {
        match self {
            Value::Int(x) => Data::Int(*x),
            Value::Float(x) => Data::Float(*x),
            Value::String(s) => Data::Text(s@),
            Value::Bool(b) => Data::Bool(*b),
            Value::List(v) => {
                proof {
                    assert(decreases_to!(v => v@));
                }
                Data::List(list_view(v@))
            },
            Value::Dict(d) => Data::Dict(d@),
        }
    }
}

impl Clone for Value {
    /// The same as `deep_copy`.
    fn clone(&self) -> Value {
        self.deep_copy()
    }
}

impl Value {
    /// An independent copy: nothing reached from it is shared with `self`.
    pub fn deep_copy(&self) -> (r: Value)
        ensures
            r@ == self@,
        decreases self, 2nat,
    {
        broadcast use lemma_list_view;

        match self {
            Value::Int(x) => Value::Int(*x),
            Value::Float(x) => Value::Float(*x),
            Value::String(s) => Value::String(s.clone()),
            Value::Bool(b) => Value::Bool(*b),
            Value::List(v) => {
                let mut out: Vec<Value> = Vec::new();
                let mut i: usize = 0;
                while i < v.len()
                    invariant
                        i <= v.len(),
                        *self == Value::List(*v),
                        out@.len() == i,
                        forall|j: int| 0 <= j < i ==> #[trigger] out@[j]@ == v@[j]@,
                    decreases v.len() - i,
                {
                    proof {
                        assert(decreases_to!(self => self->List_0));
                    }
                    out.push(v[i].deep_copy());
                    i += 1;
                }
                proof {
                    assert(views(out@) =~= views(v@));
                }
                Value::List(out)
            },
            Value::Dict(d) => Value::Dict(d.deep_copy()),
        }
    }

    /// The type tag: one of "int", "float", "string", "bool", "list", "dict".
    pub fn get_type(&self) -> (r: String)
        ensures
            r@ == tag_of(self@),
    {
        match self {
            Value::Int(_) => "int".to_owned(),
            Value::Float(_) => "float".to_owned(),
            Value::String(_) => "string".to_owned(),
            Value::Bool(_) => "bool".to_owned(),
            Value::List(_) => "list".to_owned(),
            Value::Dict(_) => "dict".to_owned(),
        }
    }

    /// The int held, or the int that a string spells. A string that spells no `i32`
    /// gives 0, not an absent result.
    pub fn as_int(&self) -> (r: Option<i32>)
        ensures
            r == match self@ {
                Data::Int(x) => Some(x),
                Data::Text(t) => Some(int_or_zero(t)),
                _ => None::<i32>,
            },
    {
        match self {
            Value::Int(x) => Some(*x),
            Value::String(s) => match parse_i32(s.as_str()) {
                Some(v) => Some(v),
                None => Some(0),
            },
            _ => None,
        }
    }

    /// The bit pattern of the float held.
    pub fn as_float(&self) -> (r: Option<u64>)
        ensures
            r == match self@ {
                Data::Float(x) => Some(x),
                _ => None::<u64>,
            },
    {
        match self {
            Value::Float(x) => Some(*x),
            _ => None,
        }
    }

    /// A copy of the string held.
    pub fn as_string(&self) -> (r: Option<String>)
        ensures
            r is Some <==> self@ is Text,
            r matches Some(t) ==> self@ == Data::Text(t@),
    {
        match self {
            Value::String(s) => Some(s.clone()),
            _ => None,
        }
    }

    /// The bool held.
    pub fn as_bool(&self) -> (r: Option<bool>)
        ensures
            r == match self@ {
                Data::Bool(b) => Some(b),
                _ => None::<bool>,
            },
    {
        match self {
            Value::Bool(b) => Some(*b),
            _ => None,
        }
    }

    /// An independent copy of the list held.
    pub fn as_list(&self) -> (r: Option<Vec<Value>>)
        ensures
            r is Some <==> self@ is List,
            r matches Some(v) ==> self@ == Data::List(views(v@)),
    {
        broadcast use lemma_list_view;

        match self {
            Value::List(_) => {
                let c = self.deep_copy();
                match c {
                    Value::List(v) => Some(v),
                    _ => None,
                }
            },
            _ => None,
        }
    }

    /// An independent copy of the dictionary held.
    pub fn as_dict(&self) -> (r: Option<Dictionary>)
        ensures
            r is Some <==> self@ is Dict,
            r matches Some(d) ==> self@ == Data::Dict(d@),
    {
        match self {
            Value::Dict(d) => Some(d.deep_copy()),
            _ => None,
        }
    }

    pub fn new_int(x: i32) -> (r: Value)
        ensures
            r@ == Data::Int(x),
    {
        Value::Int(x)
    }

    /// A float, given by its IEEE-754 binary64 bit pattern.
    pub fn new_float(bits: u64) -> (r: Value)
        ensures
            r@ == Data::Float(bits),
    {
        Value::Float(bits)
    }

    pub fn new_string(x: String) -> (r: Value)
        ensures
            r@ == Data::Text(x@),
    {
        Value::String(x)
    }

    pub fn new_bool(x: bool) -> (r: Value)
        ensures
            r@ == Data::Bool(x),
    {
        Value::Bool(x)
    }

    pub fn new_list(x: Vec<Value>) -> (r: Value)
        ensures
            r@ == Data::List(views(x@)),
    {
        proof {
            lemma_list_view(x@);
        }
        Value::List(x)
    }

    pub fn new_dict(x: Dictionary) -> (r: Value)
        ensures
            r@ == Data::Dict(x@),
    {
        Value::Dict(x)
    }

    /// The number of elements of a list or entries of a dictionary.
    pub fn len(&self) -> (r: Option<usize>)
        ensures
            r == match self@ {
                Data::List(s) => Some(s.len() as usize),
                Data::Dict(m) => Some(m.len() as usize),
                _ => None::<usize>,
            },
            self@ matches Data::List(s) ==> s.len() <= usize::MAX,
            self@ matches Data::Dict(m) ==> m.dom().finite() && m.len() <= usize::MAX,
    {
        broadcast use lemma_list_view;

        match self {
            Value::List(v) => Some(v.len()),
            Value::Dict(d) => Some(d.len()),
            _ => None,
        }
    }

    /// Whether a list or a dictionary is empty.
    pub fn is_empty(&self) -> (r: Option<bool>)
        ensures
            r == match self@ {
                Data::List(s) => Some(s.len() == 0),
                Data::Dict(m) => Some(m.len() == 0),
                _ => None::<bool>,
            },
            self@ matches Data::List(s) ==> s.len() <= usize::MAX,
            self@ matches Data::Dict(m) ==> m.dom().finite() && m.len() <= usize::MAX,
    {
        broadcast use lemma_list_view;

        match self {
            Value::List(v) => Some(v.len() == 0),
            Value::Dict(d) => Some(d.is_empty()),
            _ => None,
        }
    }

    /// Empties a list or a dictionary; leaves any other value as it is.
    pub fn clear(&mut self)
        ensures
            final(self)@ == cleared(old(self)@),
    {
        broadcast use lemma_list_view;

        match self {
            Value::List(v) => {
                v.clear();
                proof {
                    assert(views(v@) =~= Seq::<Data>::empty());
                }
            },
            Value::Dict(d) => d.clear(),
            _ => {},
        }
    }

    /// The keys of a dictionary.
    pub fn keys(&self) -> (r: Option<Vec<String>>)
        ensures
            r is Some <==> self@ is Dict,
            r matches Some(ks) ==> self matches Value::Dict(d) && ks@.map_values(|s: String| s@)
                == d.key_order() && ks@.len() == d@.len() && ks@.map_values(|s: String| s@).no_duplicates()
                && ks@.map_values(|s: String| s@).to_set() == d@.dom() && d@.dom().finite(),
    {
        match self {
            Value::Dict(d) => Some(d.keys()),
            _ => None,
        }
    }

    /// Copies of the values of a dictionary, in the order of `keys`.
    pub fn values(&self) -> (r: Option<Vec<Value>>)
        ensures
            r is Some <==> self@ is Dict,
            r matches Some(vs) ==> self matches Value::Dict(d) && vs@.len() == d@.len()
                && d.key_order().len() == d@.len() && d.key_order().no_duplicates()
                && d.key_order().to_set() == d@.dom() && d@.dom().finite() && forall|
                i: int,
            |
                0 <= i < vs@.len() ==> #[trigger] vs@[i]@ == d@[d.key_order()[i]],
    {
        match self {
            Value::Dict(d) => Some(d.values()),
            _ => None,
        }
    }

    /// A copy of the value under `key` in a dictionary.
    pub fn get(&self, key: &str) -> (r: Option<Value>)
        ensures
            !(self@ is Dict) ==> r is None,
            self@ matches Data::Dict(m) ==> (r is Some <==> m.contains_key(key@)),
            self@ matches Data::Dict(m) ==> (r matches Some(v) ==> v@ == m[key@]),
    {
        match self {
            Value::Dict(d) => match d.get(key) {
                Some(v) => Some(v.deep_copy()),
                None => None,
            },
            _ => None,
        }
    }

    /// A handle on the value under `key` in a dictionary, through which it can be changed
    /// in place.
    pub fn get_mut(&mut self, key: &str) -> (r: Option<&mut Value>)
        ensures
            !(old(self)@ is Dict) ==> r is None,
            old(self)@ matches Data::Dict(m) ==> (r is Some <==> m.contains_key(key@)),
            old(self)@ matches Data::Dict(m) ==> (r matches Some(v) ==> (*v)@ == m[key@]
                && final(self)@ == Data::Dict(m.insert(key@, (*final(v))@))),
            r is None ==> final(self)@ == old(self)@,
    {
        match self {
            Value::Dict(d) => d.get_mut(key),
            _ => None,
        }
    }

    /// Whether a dictionary has an entry under `key`.
    pub fn contains(&self, key: &str) -> (r: Option<bool>)
        ensures
            r == match self@ {
                Data::Dict(m) => Some(m.contains_key(key@)),
                _ => None::<bool>,
            },
    {
        match self {
            Value::Dict(d) => Some(d.contains(key)),
            _ => None,
        }
    }

    /// Deletes the entry under `key` from a dictionary; leaves any other value as it is.
    pub fn remove(&mut self, key: &str)
        ensures
            final(self)@ == without_key(old(self)@, key@),
    {
        match self {
            Value::Dict(d) => d.remove(key),
            _ => {},
        }
    }

    /// `self + rhs`: the sum of two ints, the concatenation of two strings or of two lists
    /// (left operand first), or for two floats what `float_add` returns on their bit patterns.
    /// Any other pair is refused, and so is an int sum outside `i32`.
    pub fn add<F: Fn(u64, u64) -> u64>(self, rhs: Value, float_add: F) -> (r: Result<
        Value,
        AddError,
    >)
        requires
            forall|a: u64, b: u64| float_add.requires((a, b)),
        ensures
            !addable(self@, rhs@) ==> (r matches Err(AddError::Mismatch(a, b)) && a@ == tag_of(
                self@,
            ) && b@ == tag_of(rhs@)),
            self@ is Int && rhs@ is Int && sum_of(self@, rhs@) is None ==> r matches Err(
                AddError::Overflow,
            ),
            sum_of(self@, rhs@) matches Some(d) ==> (r matches Ok(v) && v@ == d),
            self@ is Float && rhs@ is Float ==> (r matches Ok(v) && v@ is Float && float_add.ensures(
                (self@->Float_0, rhs@->Float_0),
                v@->Float_0,
            )),
    {
        broadcast use lemma_list_view;

        let ghost l = self@;
        let ghost m = rhs@;
        match (self, rhs) {
            (Value::Int(x), Value::Int(y)) => match x.checked_add(y) {
                Some(z) => Ok(Value::Int(z)),
                None => Err(AddError::Overflow),
            },
            (Value::Float(x), Value::Float(y)) => Ok(Value::Float(float_add(x, y))),
            (Value::String(x), Value::String(y)) => Ok(Value::String(x.concat(y.as_str()))),
            (Value::List(x), Value::List(y)) => {
                let mut x = x;
                let mut y = y;
                let ghost xs = x@;
                let ghost ys = y@;
                x.append(&mut y);
                proof {
                    assert(views(x@) =~= views(xs) + views(ys));
                }
                Ok(Value::List(x))
            },
            (a, b) => Err(AddError::Mismatch(a.get_type(), b.get_type())),
        }
    }
}

} // verus!
