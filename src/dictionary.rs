use vstd::prelude::*;

use crate::model::{
    Data, keyed, lemma_keyed_at, lemma_keyed_len, lemma_keyed_push, lemma_keyed_remove,
    lemma_keyed_update, lemma_list_view, list_view, inserted_in_order, pair_views, unique_keys,
    views,
};
use crate::value::Value;

verus! {

/// A mapping from text keys to values. Each key occurs once; adding under a key that is
/// present replaces its value.
///
/// The entries are held as two vectors of equal length, keys and values, rather than as a
/// `HashMap`: vstd states `HashMap`'s behaviour only for key types that obey its key model,
/// which `String` is not shown to do.
#[derive(Debug)]
pub struct Dictionary {
    keys: Vec<String>,
    vals: Vec<Value>,
}

impl View for Dictionary {
    type V = Map<Seq<char>, Data>;

    closed spec fn view(&self) -> Map<Seq<char>, Data>
        decreases self,
    {
        proof {
            assert(decreases_to!(self.vals => self.vals@));
        }
        keyed(self.keys@, list_view(self.vals@))
    }
}

impl Clone for Dictionary {
    /// The same as `deep_copy`.
    fn clone(&self) -> Dictionary {
        self.deep_copy()
    }
}

impl Dictionary {
    #[verifier::type_invariant]
    spec fn inv(self) -> bool {
        &&& self.keys.len() == self.vals.len()
        &&& unique_keys(self.keys@)
    }

    /// The keys in the order in which `keys` and `values` report them.
    pub closed spec fn key_order(&self) -> Seq<Seq<char>> {
        self.keys@.map_values(|s: String| s@)
    }

    proof fn lemma_view(&self)
        requires
            self.inv(),
        ensures
            self@ == keyed(self.keys@, views(self.vals@)),
            self@.dom().finite(),
            self@.len() == self.keys.len(),
            self.keys.len() == self.vals.len(),
            unique_keys(self.keys@),
    {
        lemma_list_view(self.vals@);
        lemma_keyed_len(self.keys@, views(self.vals@));
    }

    proof fn lemma_key_order(&self)
        requires
            self.inv(),
        ensures
            self.key_order().len() == self@.len(),
            self.key_order().no_duplicates(),
            forall|i: int|
                0 <= i < self.key_order().len() ==> #[trigger] self@.contains_key(
                    self.key_order()[i],
                ),
            forall|k: Seq<char>| #[trigger]
                self@.contains_key(k) ==> self.key_order().contains(k),
            self.key_order().to_set() == self@.dom(),
    {
        self.lemma_view();
        assert forall|i: int| 0 <= i < self.key_order().len() implies #[trigger] self@.contains_key(
            self.key_order()[i],
        ) by {
            lemma_keyed_at(self.keys@, views(self.vals@), i);
        }
        assert forall|k: Seq<char>| #[trigger] self@.contains_key(k) implies self.key_order().contains(
            k,
        ) by {
            let i = choose|i: int| 0 <= i < self.keys.len() && self.keys@[i]@ == k;
            assert(self.key_order()[i] == k);
        }
        assert forall|k: Seq<char>| #[trigger] self.key_order().to_set().contains(k) implies self@.dom().contains(k) by {
            let i = choose|i: int| 0 <= i < self.key_order().len() && self.key_order()[i] == k;
            assert(self@.contains_key(self.key_order()[i]));
        }
        assert(self.key_order().to_set() =~= self@.dom());
    }

    /// Index of the entry whose key has the text of `key`.
    fn find(&self, key: &String) -> (r: Option<usize>)
        ensures
            r matches Some(i) ==> i < self.keys.len() && self.keys@[i as int]@ == key@,
            r is None ==> forall|i: int| 0 <= i < self.keys.len() ==> self.keys@[i]@ != key@,
    {
        let mut i: usize = 0;
        while i < self.keys.len()
            invariant
                i <= self.keys.len(),
                forall|j: int| 0 <= j < i ==> self.keys@[j]@ != key@,
            decreases self.keys.len() - i,
        {
            if self.keys[i] == *key {
                return Some(i);
            }
            i += 1;
        }
        None
    }

    /// Moves the entries out, leaving the dictionary empty.
    fn take_entries(&mut self) -> (r: (Vec<String>, Vec<Value>))
        ensures
            r.0@ == old(self).keys@,
            r.1@ == old(self).vals@,
            r.0.len() == r.1.len(),
            unique_keys(r.0@),
            keyed(r.0@, views(r.1@)) == old(self)@,
            r.0@.len() == old(self)@.len(),
            final(self)@ == Map::<Seq<char>, Data>::empty(),
    {
        let mut d = Dictionary::new();
        std::mem::swap(self, &mut d);
        proof {
            use_type_invariant(&d);
            d.lemma_view();
        }
        let Dictionary { keys, vals } = d;
        (keys, vals)
    }

    /// An empty dictionary.
    pub fn new() -> (r: Dictionary)
        ensures
            r@ == Map::<Seq<char>, Data>::empty(),
    {
        let r = Dictionary { keys: Vec::new(), vals: Vec::new() };
        proof {
            r.lemma_view();
            assert(r@ =~= Map::<Seq<char>, Data>::empty());
        }
        r
    }

    /// A dictionary holding the given pairs, added in order: of two pairs with the same key
    /// the later one stays.
    pub fn from_pairs(pairs: Vec<(String, Value)>) -> (r: Dictionary)
        ensures
            r@ == inserted_in_order(pair_views(pairs@)),
    {
        let ghost all = pair_views(pairs@);
        let mut rest = pairs;
        let mut r = Dictionary::new();
        let ghost mut done: int = 0;
        while rest.len() > 0
            invariant
                0 <= done <= all.len(),
                pair_views(rest@) == all.subrange(done, all.len() as int),
                r@ == inserted_in_order(all.subrange(0, done)),
            decreases rest.len(),
        {
            let ghost before = rest@;
            let (k, v) = rest.remove(0);
            proof {
                assert(pair_views(before).len() == before.len());
                assert(done < all.len());
                assert(pair_views(before)[0] == all.subrange(done, all.len() as int)[0]);
                assert forall|j: int| 0 <= j < rest@.len() implies #[trigger] pair_views(rest@)[j]
                    == all[done + 1 + j] by {
                    assert(rest@[j] == before[j + 1]);
                    assert(pair_views(before)[j + 1] == all.subrange(done, all.len() as int)[j
                        + 1]);
                }
            }
            r.add(k.as_str(), v);
            proof {
                let pre = all.subrange(0, done + 1);
                assert(pre.drop_last() =~= all.subrange(0, done));
                assert(pair_views(rest@) =~= all.subrange(done + 1, all.len() as int));
                done = done + 1;
            }
        }
        proof {
            assert(all.subrange(0, done) =~= all);
        }
        r
    }

    /// Puts `value` under `key`, replacing what was there.
    pub fn add(&mut self, key: &str, value: Value)
        ensures
            final(self)@ == old(self)@.insert(key@, value@),
            old(self)@.dom().finite(),
            final(self)@.dom().finite(),
            final(self)@.len() == old(self)@.len() + if old(self)@.contains_key(key@) {
                0int
            } else {
                1int
            },
    {
        proof {
            use_type_invariant(&*self);
            self.lemma_view();
        }
        let k = key.to_owned();
        let found = self.find(&k);
        let (mut keys, mut vals) = self.take_entries();
        let ghost ks = keys@;
        let ghost ds = views(vals@);
        match found {
            Some(i) => {
                vals.set(i, value);
                proof {
                    lemma_keyed_update(ks, ds, i as int, value@);
                    assert(views(vals@) =~= ds.update(i as int, value@));
                }
            },
            None => {
                keys.push(k);
                vals.push(value);
                proof {
                    lemma_keyed_push(ks, ds, k, value@);
                    assert(views(vals@) =~= ds.push(value@));
                }
            },
        }
        *self = Dictionary { keys, vals };
        proof {
            use_type_invariant(&*self);
            self.lemma_view();
        }
    }

    /// The value under `key`, if there is one.
    pub fn get(&self, key: &str) -> (r: Option<&Value>)
        ensures
            r is Some <==> self@.contains_key(key@),
            r matches Some(v) ==> v@ == self@[key@],
    {
        proof {
            use_type_invariant(&*self);
            self.lemma_view();
        }
        let k = key.to_owned();
        match self.find(&k) {
            Some(i) => {
                proof {
                    lemma_keyed_at(self.keys@, views(self.vals@), i as int);
                }
                Some(&self.vals[i])
            },
            None => None,
        }
    }

    /// A handle through which the value under `key` can be changed in place.
    pub fn get_mut(&mut self, key: &str) -> (r: Option<&mut Value>)
        ensures
            r is Some <==> old(self)@.contains_key(key@),
            r matches Some(v) ==> (*v)@ == old(self)@[key@] && final(self)@ == old(self)@.insert(
                key@,
                (*final(v))@,
            ),
            r is None ==> final(self)@ == old(self)@,
    {
        broadcast use lemma_list_view;

        proof {
            use_type_invariant(&*self);
            self.lemma_view();
        }
        let k = key.to_owned();
        let ghost ks = self.keys@;
        let ghost ds = views(self.vals@);
        match self.find(&k) {
            Some(i) => {
                proof {
                    lemma_keyed_at(ks, ds, i as int);
                }
                let ghost old_vals = self.vals@;
                let r = &mut self.vals[i];
                proof {
                    lemma_keyed_update(ks, ds, i as int, (*final(r))@);
                    assert(views(old_vals.update(i as int, *final(r))) =~= ds.update(
                        i as int,
                        (*final(r))@,
                    ));
                }
                Some(r)
            },
            None => None,
        }
    }

    /// Deletes the entry under `key`; does nothing when there is none.
    pub fn remove(&mut self, key: &str)
        ensures
            final(self)@ == old(self)@.remove(key@),
            old(self)@.dom().finite(),
            final(self)@.dom().finite(),
            final(self)@.len() == old(self)@.len() - if old(self)@.contains_key(key@) {
                1int
            } else {
                0int
            },
    {
        proof {
            use_type_invariant(&*self);
            self.lemma_view();
        }
        let k = key.to_owned();
        match self.find(&k) {
            Some(i) => {
                let (mut keys, mut vals) = self.take_entries();
                let ghost ks = keys@;
                let ghost ds = views(vals@);
                keys.remove(i);
                vals.remove(i);
                proof {
                    lemma_keyed_remove(ks, ds, i as int);
                    assert(views(vals@) =~= ds.remove(i as int));
                }
                *self = Dictionary { keys, vals };
                proof {
                    use_type_invariant(&*self);
                    self.lemma_view();
                }
            },
            None => {
                proof {
                    assert(old(self)@.remove(key@) =~= old(self)@);
                }
            },
        }
    }

    /// Whether there is an entry under `key`.
    pub fn contains(&self, key: &str) -> (r: bool)
        ensures
            r == self@.contains_key(key@),
    {
        proof {
            use_type_invariant(&*self);
            self.lemma_view();
        }
        let k = key.to_owned();
        match self.find(&k) {
            Some(i) => {
                proof {
                    lemma_keyed_at(self.keys@, views(self.vals@), i as int);
                }
                true
            },
            None => false,
        }
    }

    /// The number of entries.
    pub fn len(&self) -> (r: usize)
        ensures
            r == self@.len(),
            self@.dom().finite(),
    {
        proof {
            use_type_invariant(&*self);
            self.lemma_view();
        }
        self.keys.len()
    }

    /// Whether there are no entries.
    pub fn is_empty(&self) -> (r: bool)
        ensures
            r == (self@.len() == 0),
            r == (self@ == Map::<Seq<char>, Data>::empty()),
            self@.dom().finite(),
            self@.len() <= usize::MAX,
    {
        proof {
            use_type_invariant(&*self);
            self.lemma_view();
            if self@.len() == 0 {
                assert(self@.dom() =~= Set::<Seq<char>>::empty());
                assert(self@ =~= Map::<Seq<char>, Data>::empty());
            }
        }
        self.keys.len() == 0
    }

    /// Removes every entry.
    pub fn clear(&mut self)
        ensures
            final(self)@ == Map::<Seq<char>, Data>::empty(),
    {
        *self = Dictionary::new();
    }

    /// The keys, each once, in an order that callers must not rely on.
    pub fn keys(&self) -> (r: Vec<String>)
        ensures
            r@.map_values(|s: String| s@) == self.key_order(),
            r@.len() == self@.len(),
            forall|i: int| 0 <= i < r@.len() ==> #[trigger] self@.contains_key(r@[i]@),
            forall|i: int, j: int|
                0 <= i < r@.len() && 0 <= j < r@.len() && i != j ==> r@[i]@ != r@[j]@,
            r@.map_values(|s: String| s@).no_duplicates(),
            r@.map_values(|s: String| s@).to_set() == self@.dom(),
            self@.dom().finite(),
    {
        proof {
            use_type_invariant(&*self);
            self.lemma_view();
            self.lemma_key_order();
        }
        let mut r: Vec<String> = Vec::new();
        let mut i: usize = 0;
        while i < self.keys.len()
            invariant
                i <= self.keys.len(),
                r@.len() == i,
                forall|j: int| 0 <= j < i ==> r@[j] == self.keys@[j],
            decreases self.keys.len() - i,
        {
            r.push(self.keys[i].clone());
            i += 1;
        }
        proof {
            assert(r@ =~= self.keys@);
            assert(r@.map_values(|s: String| s@) =~= self.key_order());
        }
        r
    }

    /// Copies of the values, in the order of `keys`.
    pub fn values(&self) -> (r: Vec<Value>)
        ensures
            r@.len() == self@.len(),
            self.key_order().len() == self@.len(),
            self.key_order().no_duplicates(),
            self.key_order().to_set() == self@.dom(),
            self@.dom().finite(),
            forall|i: int| 0 <= i < r@.len() ==> #[trigger] r@[i]@ == self@[self.key_order()[i]],
    {
        proof {
            use_type_invariant(&*self);
            self.lemma_view();
            self.lemma_key_order();
        }
        let r = self.copy_values();
        proof {
            assert forall|i: int| 0 <= i < r@.len() implies #[trigger] r@[i]@ == self@[self.key_order()[i]] by {
                lemma_keyed_at(self.keys@, views(self.vals@), i);
            }
        }
        r
    }

    fn copy_values(&self) -> (r: Vec<Value>)
        ensures
            r@.len() == self.vals@.len(),
            forall|j: int| 0 <= j < r@.len() ==> #[trigger] r@[j]@ == self.vals@[j]@,
        decreases self, 0nat,
    {
        let mut r: Vec<Value> = Vec::new();
        let mut i: usize = 0;
        while i < self.vals.len()
            invariant
                i <= self.vals.len(),
                r@.len() == i,
                forall|j: int| 0 <= j < i ==> #[trigger] r@[j]@ == self.vals@[j]@,
            decreases self.vals.len() - i,
        {
            proof {
                assert(decreases_to!(self => self.vals));
            }
            r.push(self.vals[i].deep_copy());
            i += 1;
        }
        r
    }

    /// An independent copy with the same entries.
    pub fn deep_copy(&self) -> (r: Dictionary)
        ensures
            r@ == self@,
        decreases self, 1nat,
    {
        proof {
            use_type_invariant(&*self);
            self.lemma_view();
        }
        let mut keys: Vec<String> = Vec::new();
        let mut i: usize = 0;
        while i < self.keys.len()
            invariant
                i <= self.keys.len(),
                keys@.len() == i,
                forall|j: int| 0 <= j < i ==> keys@[j] == self.keys@[j],
            decreases self.keys.len() - i,
        {
            keys.push(self.keys[i].clone());
            i += 1;
        }
        let vals = self.copy_values();
        proof {
            assert(keys@ =~= self.keys@);
            assert(views(vals@) =~= views(self.vals@));
        }
        let r = Dictionary { keys, vals };
        proof {
            use_type_invariant(&r);
            r.lemma_view();
        }
        r
    }

}

} // verus!
