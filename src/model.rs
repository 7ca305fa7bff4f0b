use vstd::prelude::*;

use crate::value::Value;

verus! {

/// What a `Value` means: the same six shapes, with text as characters, lists as sequences
/// and dictionaries as finite maps from key text to data.
pub enum Data {
    Int(i32),
    /// The IEEE-754 binary64 bit pattern of the number.
    Float(u64),
    Text(Seq<char>),
    Bool(bool),
    List(Seq<Data>),
    Dict(Map<Seq<char>, Data>),
}

/// The type tag that `Value::get_type` reports for data of this shape.
pub open spec fn tag_of(d: Data) -> Seq<char> {
    match d {
        Data::Int(_) => "int"@,
        Data::Float(_) => "float"@,
        Data::Text(_) => "string"@,
        Data::Bool(_) => "bool"@,
        Data::List(_) => "list"@,
        Data::Dict(_) => "dict"@,
    }
}

/// Whether `+` is defined on data of these two shapes: two ints, two floats, two texts or
/// two lists.
pub open spec fn addable(a: Data, b: Data) -> bool {
    ||| (a is Int && b is Int)
    ||| (a is Float && b is Float)
    ||| (a is Text && b is Text)
    ||| (a is List && b is List)
}

/// What `+` gives on two ints, two texts or two lists: the int sum where it fits in `i32`,
/// otherwise the left operand followed by the right one. `None` on every other pair, and where
/// the int sum does not fit.
pub open spec fn sum_of(a: Data, b: Data) -> Option<Data> {
    match (a, b) {
        (Data::Int(x), Data::Int(y)) => if i32::MIN <= x + y <= i32::MAX {
            Some(Data::Int((x + y) as i32))
        } else {
            None
        },
        (Data::Text(x), Data::Text(y)) => Some(Data::Text(x + y)),
        (Data::List(x), Data::List(y)) => Some(Data::List(x + y)),
        _ => None,
    }
}

/// The data left after emptying a list or a dictionary; other data stays as it is.
pub open spec fn cleared(d: Data) -> Data {
    match d {
        Data::List(_) => Data::List(Seq::empty()),
        Data::Dict(_) => Data::Dict(Map::empty()),
        _ => d,
    }
}

/// The data left after removing `key` from a dictionary; other data stays as it is.
pub open spec fn without_key(d: Data, key: Seq<char>) -> Data {
    match d {
        Data::Dict(m) => Data::Dict(m.remove(key)),
        _ => d,
    }
}

/// The models of a sequence of values, element by element.
pub open spec fn views(s: Seq<Value>) -> Seq<Data> {
    Seq::new(s.len(), |i: int| s[i]@)
}

/// The same as `views`, written recursively so that it can stand inside the
/// definition of `Value`'s own model.
pub closed spec fn list_view(s: Seq<Value>) -> Seq<Data>
    decreases s,
{
    if s.len() == 0 {
        Seq::empty()
    } else {
        list_view(s.subrange(0, s.len() - 1)).push(s[s.len() - 1]@)
    }
}

/// No key text occurs twice.
pub open spec fn unique_keys(ks: Seq<String>) -> bool {
    forall|i: int, j: int| 0 <= i < ks.len() && 0 <= j < ks.len() && i != j ==> ks[i]@ != ks[j]@
}

/// The map that sends each key text `ks[i]@` to `ds[i]`.
pub open spec fn keyed(ks: Seq<String>, ds: Seq<Data>) -> Map<Seq<char>, Data> {
    Map::new(
        |k: Seq<char>| exists|i: int| 0 <= i < ks.len() && ks[i]@ == k,
        |k: Seq<char>| ds[choose|i: int| 0 <= i < ks.len() && ks[i]@ == k],
    )
}

/// The map that inserting the pairs of `s` one after another into an empty map builds; a
/// later pair wins over an earlier one with the same key.
pub open spec fn inserted_in_order(s: Seq<(Seq<char>, Data)>) -> Map<Seq<char>, Data>
    decreases s.len(),
{
    if s.len() == 0 {
        Map::empty()
    } else {
        inserted_in_order(s.drop_last()).insert(s.last().0, s.last().1)
    }
}

/// The models of key/value pairs.
pub open spec fn pair_views(s: Seq<(String, Value)>) -> Seq<(Seq<char>, Data)> {
    Seq::new(s.len(), |i: int| (s[i].0@, s[i].1@))
}

pub broadcast proof fn lemma_list_view(s: Seq<Value>)
    ensures
        #[trigger] list_view(s) == views(s),
    decreases s.len(),
{
    if s.len() > 0 {
        let t = s.subrange(0, s.len() - 1);
        lemma_list_view(t);
        assert(list_view(s) == list_view(t).push(s[s.len() - 1]@));
        assert forall|i: int| 0 <= i < s.len() implies #[trigger] list_view(s)[i] == views(s)[i] by {
            if i < s.len() - 1 {
                assert(views(t)[i] == t[i]@);
                assert(t[i] == s[i]);
            }
        }
        assert(list_view(s) =~= views(s));
    } else {
        assert(list_view(s) =~= views(s));
    }
}

pub proof fn lemma_keyed_at(ks: Seq<String>, ds: Seq<Data>, i: int)
    requires
        unique_keys(ks),
        0 <= i < ks.len(),
    ensures
        keyed(ks, ds).contains_key(ks[i]@),
        keyed(ks, ds)[ks[i]@] == ds[i],
{
    let k = ks[i]@;
    assert(exists|j: int| 0 <= j < ks.len() && ks[j]@ == k);
    let j = choose|j: int| 0 <= j < ks.len() && ks[j]@ == k;
    assert(j == i);
}

pub proof fn lemma_keyed_len(ks: Seq<String>, ds: Seq<Data>)
    requires
        unique_keys(ks),
    ensures
        keyed(ks, ds).dom().finite(),
        keyed(ks, ds).len() == ks.len(),
{
    let kv = ks.map_values(|s: String| s@);
    assert(kv.no_duplicates());
    kv.unique_seq_to_set();
    assert forall|k: Seq<char>| keyed(ks, ds).dom().contains(k) <==> #[trigger] kv.to_set().contains(
        k,
    ) by {
        if kv.to_set().contains(k) {
            let i = choose|i: int| 0 <= i < kv.len() && kv[i] == k;
            assert(ks[i]@ == k);
        }
        if keyed(ks, ds).dom().contains(k) {
            let i = choose|i: int| 0 <= i < ks.len() && ks[i]@ == k;
            assert(kv[i] == k);
        }
    }
    assert(keyed(ks, ds).dom() =~= kv.to_set());
}

pub proof fn lemma_keyed_update(ks: Seq<String>, ds: Seq<Data>, i: int, d: Data)
    requires
        unique_keys(ks),
        0 <= i < ks.len(),
        ds.len() == ks.len(),
    ensures
        keyed(ks, ds.update(i, d)) == keyed(ks, ds).insert(ks[i]@, d),
{
    let a = keyed(ks, ds.update(i, d));
    let b = keyed(ks, ds).insert(ks[i]@, d);
    assert forall|k: Seq<char>| #[trigger] a.contains_key(k) implies a[k] == b[k] by {
        let j = choose|j: int| 0 <= j < ks.len() && ks[j]@ == k;
        lemma_keyed_at(ks, ds.update(i, d), j);
        lemma_keyed_at(ks, ds, j);
    }
    lemma_keyed_at(ks, ds, i);
    assert(a =~= b);
}

pub proof fn lemma_keyed_push(ks: Seq<String>, ds: Seq<Data>, s: String, d: Data)
    requires
        unique_keys(ks),
        ds.len() == ks.len(),
        forall|i: int| 0 <= i < ks.len() ==> ks[i]@ != s@,
    ensures
        unique_keys(ks.push(s)),
        keyed(ks.push(s), ds.push(d)) == keyed(ks, ds).insert(s@, d),
{
    let ks2 = ks.push(s);
    let ds2 = ds.push(d);
    assert(unique_keys(ks2));
    let a = keyed(ks2, ds2);
    let b = keyed(ks, ds).insert(s@, d);
    assert forall|k: Seq<char>| #[trigger] a.contains_key(k) implies b.contains_key(k) && a[k]
        == b[k] by {
        let j = choose|j: int| 0 <= j < ks2.len() && ks2[j]@ == k;
        lemma_keyed_at(ks2, ds2, j);
        if j < ks.len() {
            lemma_keyed_at(ks, ds, j);
        }
    }
    assert forall|k: Seq<char>| #[trigger] b.contains_key(k) implies a.contains_key(k) by {
        if k == s@ {
            lemma_keyed_at(ks2, ds2, ks.len() as int);
        } else {
            let j = choose|j: int| 0 <= j < ks.len() && ks[j]@ == k;
            assert(ks2[j]@ == k);
        }
    }
    assert(a =~= b);
}

pub proof fn lemma_keyed_remove(ks: Seq<String>, ds: Seq<Data>, i: int)
    requires
        unique_keys(ks),
        0 <= i < ks.len(),
        ds.len() == ks.len(),
    ensures
        unique_keys(ks.remove(i)),
        keyed(ks.remove(i), ds.remove(i)) == keyed(ks, ds).remove(ks[i]@),
{
    let ks2 = ks.remove(i);
    let ds2 = ds.remove(i);
    assert(unique_keys(ks2)) by {
        assert forall|a: int, b: int|
            0 <= a < ks2.len() && 0 <= b < ks2.len() && a != b implies ks2[a]@ != ks2[b]@ by {
            let a0 = if a < i {
                a
            } else {
                a + 1
            };
            let b0 = if b < i {
                b
            } else {
                b + 1
            };
            assert(ks2[a] == ks[a0]);
            assert(ks2[b] == ks[b0]);
        }
    }
    let m = keyed(ks2, ds2);
    let n = keyed(ks, ds).remove(ks[i]@);
    assert forall|k: Seq<char>| #[trigger] m.contains_key(k) implies n.contains_key(k) && m[k]
        == n[k] by {
        let j = choose|j: int| 0 <= j < ks2.len() && ks2[j]@ == k;
        lemma_keyed_at(ks2, ds2, j);
        let j0 = if j < i {
            j
        } else {
            j + 1
        };
        assert(ks2[j] == ks[j0]);
        assert(ds2[j] == ds[j0]);
        lemma_keyed_at(ks, ds, j0);
    }
    assert forall|k: Seq<char>| #[trigger] n.contains_key(k) implies m.contains_key(k) by {
        let j = choose|j: int| 0 <= j < ks.len() && ks[j]@ == k;
        assert(j != i);
        let j2 = if j < i {
            j
        } else {
            j - 1
        };
        assert(ks2[j2] == ks[j]);
    }
    assert(m =~= n);
}

} // verus!
