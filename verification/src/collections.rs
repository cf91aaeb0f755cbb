//! Small string-keyed collections with verified contents.
//!
//! The records of the format carry sets of file names and maps from text to
//! text. Both are kept here as vectors in which no key occurs twice, and are
//! seen in contracts as a mathematical set or map over the strings' text.

use vstd::prelude::*;

verus! {

/// A set of strings.
#[derive(Debug)]
pub struct StringSet {
    items: Vec<String>,
}

/// The text of each string of `items`, in order.
pub open spec fn texts(items: Seq<String>) -> Seq<Seq<char>> {
    Seq::new(items.len(), |i: int| items[i]@)
}

impl View for StringSet {
    type V = Set<Seq<char>>;

    closed spec fn view(&self) -> Set<Seq<char>> {
        texts(self.items@).to_set()
    }
}

/// Finds `wanted` among `items`: the index of its one occurrence, if any.
fn position(items: &Vec<String>, wanted: &String) -> (found: Option<usize>)
    ensures
        match found {
            Some(i) => i < items.len() && items[i as int]@ == wanted@,
            None => !texts(items@).contains(wanted@),
        },
{
    let mut i: usize = 0;
    while i < items.len()
        invariant
            i <= items.len(),
            forall|j: int| 0 <= j < i ==> items[j]@ != wanted@,
        decreases items.len() - i,
    {
        if items[i] == *wanted {
            return Some(i);
        }
        i += 1;
    }
    None
}

impl StringSet {
    #[verifier::type_invariant]
    spec fn distinct(&self) -> bool {
        texts(self.items@).no_duplicates()
    }

    /// The empty set.
    pub fn new() -> (set: Self)
        ensures
            set@ == Set::<Seq<char>>::empty(),
    {
        StringSet { items: Vec::new() }
    }

    /// The number of strings in the set.
    pub fn len(&self) -> (n: usize)
        ensures
            n == self@.len(),
            self@.finite(),
    {
        proof {
            use_type_invariant(self);
            texts(self.items@).unique_seq_to_set();
        }
        self.items.len()
    }

    /// Whether the set holds no string.
    pub fn is_empty(&self) -> (empty: bool)
        ensures
            empty == (self@ == Set::<Seq<char>>::empty()),
    {
        proof {
            if self.items.len() > 0 {
                assert(texts(self.items@)[0] == self.items[0]@);
                assert(self@.contains(self.items[0]@));
            } else {
                assert(self@ =~= Set::<Seq<char>>::empty());
            }
        }
        self.items.len() == 0
    }

    /// Whether the set holds `value`.
    pub fn contains(&self, value: &str) -> (found: bool)
        ensures
            found == self@.contains(value@),
    {
        let wanted = value.to_owned();
        let at = position(&self.items, &wanted);
        proof {
            if let Some(i) = at {
                assert(texts(self.items@)[i as int] == value@);
            }
        }
        at.is_some()
    }

    /// Adds `value`, and says whether it was new. A string that the set
    /// already holds is dropped.
    pub fn insert(&mut self, value: String) -> (fresh: bool)
        ensures
            final(self)@ == old(self)@.insert(value@),
            fresh == !old(self)@.contains(value@),
    {
        proof {
            use_type_invariant(&*self);
        }
        let at = position(&self.items, &value);
        match at {
            Some(i) => {
                proof {
                    assert(texts(self.items@)[i as int] == value@);
                }
                false
            },
            None => {
                let ghost before = texts(self.items@);
                let mut items = Vec::new();
                std::mem::swap(&mut items, &mut self.items);
                items.push(value);
                proof {
                    assert(texts(items@) =~= before.push(value@));
                    before.lemma_push_to_set_commute(value@);
                }
                self.items = items;
                true
            },
        }
    }

    /// The strings of the set, each once, in the order in which they came.
    pub fn items(&self) -> (items: &Vec<String>)
        ensures
            texts(items@).to_set() == self@,
            texts(items@).no_duplicates(),
    {
        proof {
            use_type_invariant(self);
        }
        &self.items
    }
}

/// A map from strings to values of type `V`, seen as a map from the keys' text
/// to the values' views.
#[derive(Debug)]
pub struct StringMap<V> {
    keys: Vec<String>,
    values: Vec<V>,
}

impl<V: View> View for StringMap<V> {
    type V = Map<Seq<char>, V::V>;

    closed spec fn view(&self) -> Map<Seq<char>, V::V> {
        Map::new(
            |key: Seq<char>| texts(self.keys@).contains(key),
            |key: Seq<char>| self.values[texts(self.keys@).index_of(key)]@,
        )
    }
}

impl<V> StringMap<V> {
    #[verifier::type_invariant]
    spec fn distinct(&self) -> bool {
        self.keys.len() == self.values.len() && texts(self.keys@).no_duplicates()
    }
}

impl<V: View> StringMap<V> {
    /// The empty map.
    pub fn new() -> (map: Self)
        ensures
            map@ == Map::<Seq<char>, V::V>::empty(),
    {
        StringMap { keys: Vec::new(), values: Vec::new() }
    }

    /// The number of keys.
    pub fn len(&self) -> (n: usize)
        ensures
            n == self@.dom().len(),
            self@.dom().finite(),
    {
        proof {
            use_type_invariant(self);
            texts(self.keys@).unique_seq_to_set();
        }
        self.keys.len()
    }

    /// Whether the map has no key.
    pub fn is_empty(&self) -> (empty: bool)
        ensures
            empty == (self@ == Map::<Seq<char>, V::V>::empty()),
    {
        proof {
            use_type_invariant(self);
            if self.keys.len() > 0 {
                assert(texts(self.keys@)[0] == self.keys[0]@);
                assert(self@.contains_key(self.keys[0]@));
            } else {
                assert(self@ =~= Map::<Seq<char>, V::V>::empty());
            }
        }
        self.keys.len() == 0
    }

    /// Whether the map has `key`.
    pub fn contains_key(&self, key: &str) -> (found: bool)
        ensures
            found == self@.contains_key(key@),
    {
        let wanted = key.to_owned();
        let at = position(&self.keys, &wanted);
        proof {
            if let Some(i) = at {
                assert(texts(self.keys@)[i as int] == key@);
            }
        }
        at.is_some()
    }

    /// The value under `key`, if the map has the key.
    pub fn get(&self, key: &str) -> (value: Option<&V>)
        ensures
            match value {
                Some(v) => self@.contains_key(key@) && v@ == self@[key@],
                None => !self@.contains_key(key@),
            },
    {
        proof {
            use_type_invariant(self);
        }
        let wanted = key.to_owned();
        match position(&self.keys, &wanted) {
            Some(i) => {
                proof {
                    assert(texts(self.keys@)[i as int] == key@);
                }
                Some(&self.values[i])
            },
            None => None,
        }
    }

    /// Puts `value` under `key`. A value that was there before is replaced.
    pub fn insert(&mut self, key: String, value: V)
        ensures
            final(self)@ == old(self)@.insert(key@, value@),
    {
        proof {
            use_type_invariant(&*self);
        }
        let ghost old_keys = texts(self.keys@);
        let at = position(&self.keys, &key);
        let mut taken = StringMap { keys: Vec::new(), values: Vec::new() };
        std::mem::swap(self, &mut taken);
        let StringMap { mut keys, mut values } = taken;
        match at {
            Some(i) => {
                values[i] = value;
                proof {
                    assert(old_keys[i as int] == key@);
                }
            },
            None => {
                keys.push(key);
                values.push(value);
                proof {
                    assert(texts(keys@) =~= old_keys.push(key@));
                    assert forall|k: Seq<char>| texts(keys@).contains(k) <==> old_keys.contains(k)
                        || k == key@ by {
                        if old_keys.contains(k) {
                            let j = old_keys.index_of(k);
                            assert(texts(keys@)[j] == k);
                        }
                        if k == key@ {
                            assert(texts(keys@)[old_keys.len() as int] == k);
                        }
                    }
                }
            },
        }
        *self = StringMap { keys, values };
    }

    /// The text of each key, in the order in which the keys first came.
    pub closed spec fn key_texts(&self) -> Seq<Seq<char>> {
        texts(self.keys@)
    }

    /// The keys, each once, in the order in which they first came.
    pub fn keys(&self) -> (keys: &Vec<String>)
        ensures
            texts(keys@) == self.key_texts(),
            texts(keys@).to_set() == self@.dom(),
            texts(keys@).no_duplicates(),
    {
        proof {
            use_type_invariant(self);
        }
        &self.keys
    }

    /// The values, in the order of [`StringMap::keys`]: the value at an index
    /// is the value under the key at that index.
    pub fn values(&self) -> (values: &Vec<V>)
        ensures
            values@.len() == self.key_texts().len(),
            forall|i: int|
                0 <= i < values@.len() ==> (#[trigger] values@[i])@ == self@[self.key_texts()[i]],
    {
        proof {
            use_type_invariant(self);
            assert forall|i: int| 0 <= i < self.values@.len() implies (
            #[trigger] self.values@[i])@ == self@[self.key_texts()[i]] by {
                assert(texts(self.keys@).index_of(self.key_texts()[i]) == i);
            }
        }
        &self.values
    }
}

} // verus!
