use vstd::prelude::*;

verus! {

/// A map from strings to values, kept as two parallel lists with each key
/// once. A key maps to the value it was last inserted with.
#[derive(Debug, Clone)]
pub struct StringMap<V> {
    keys: Vec<String>,
    values: Vec<V>,
}

/// Maps the keys of classes to their scene entities (as entity bits), so
/// that a class can be found again by its key.
#[derive(Debug, Clone)]
pub struct KeyRegistry(pub StringMap<u64>);

/// The map made by registering `keys[j] -> values[j]` for `j < n`, in order.
pub open spec fn string_map_spec<V>(keys: Seq<Seq<char>>, values: Seq<V>, n: int) -> Map<Seq<char>, V>
    decreases n,
{
    if n <= 0 {
        Map::empty()
    } else {
        string_map_spec(keys, values, n - 1).insert(keys[n - 1], values[n - 1])
    }
}

proof fn lemma_registry_lookup<V>(keys: Seq<Seq<char>>, values: Seq<V>, n: int, k: Seq<char>)
    requires
        0 <= n <= keys.len(),
        n <= values.len(),
        forall|a: int, b: int| 0 <= a < b < n ==> keys[a] != keys[b],
    ensures
        string_map_spec(keys, values, n).dom().contains(k) <==> exists|j: int|
            0 <= j < n && keys[j] == k,
        forall|j: int|
            0 <= j < n && keys[j] == k ==> string_map_spec(keys, values, n)[k] == values[j],
    decreases n,
{
    if n > 0 {
        lemma_registry_lookup(keys, values, n - 1, k);
        if keys[n - 1] == k {
            assert(exists|j: int| 0 <= j < n && keys[j] == k) by {
                assert(keys[n - 1] == k);
            }
        }
    }
}

proof fn lemma_registry_update<V>(
    keys: Seq<Seq<char>>,
    values: Seq<V>,
    n: int,
    i: int,
    v: V,
)
    requires
        0 <= i < n <= keys.len(),
        n <= values.len(),
        forall|a: int, b: int| 0 <= a < b < n ==> keys[a] != keys[b],
    ensures
        string_map_spec(keys, values.update(i, v), n) =~= string_map_spec(keys, values, n).insert(
            keys[i],
            v,
        ),
    decreases n,
{
    if n - 1 == i {
        assert(string_map_spec(keys, values.update(i, v), n - 1) =~= string_map_spec(
            keys,
            values,
            n - 1,
        )) by {
            lemma_registry_same_prefix(keys, values, values.update(i, v), n - 1);
        }
    } else {
        lemma_registry_update(keys, values, n - 1, i, v);
    }
}

proof fn lemma_registry_same_prefix<V>(keys: Seq<Seq<char>>, e1: Seq<V>, e2: Seq<V>, n: int)
    requires
        0 <= n,
        n <= e1.len(),
        n <= e2.len(),
        forall|j: int| 0 <= j < n ==> e1[j] == e2[j],
    ensures
        string_map_spec(keys, e1, n) == string_map_spec(keys, e2, n),
    decreases n,
{
    if n > 0 {
        lemma_registry_same_prefix(keys, e1, e2, n - 1);
    }
}

proof fn lemma_registry_push<V>(keys: Seq<Seq<char>>, values: Seq<V>, n: int, k: Seq<char>, v: V)
    requires
        0 <= n,
        n == keys.len(),
        n == values.len(),
    ensures
        string_map_spec(keys.push(k), values.push(v), n + 1) == string_map_spec(keys, values, n).insert(k, v),
{
    lemma_registry_prefix(keys, keys.push(k), values, values.push(v), n);
}

proof fn lemma_registry_prefix<V>(k1: Seq<Seq<char>>, k2: Seq<Seq<char>>, e1: Seq<V>, e2: Seq<V>, n: int)
    requires
        0 <= n,
        n <= k1.len(),
        n <= k2.len(),
        n <= e1.len(),
        n <= e2.len(),
        forall|j: int| 0 <= j < n ==> k1[j] == k2[j] && e1[j] == e2[j],
    ensures
        string_map_spec(k1, e1, n) == string_map_spec(k2, e2, n),
    decreases n,
{
    if n > 0 {
        lemma_registry_prefix(k1, k2, e1, e2, n - 1);
    }
}

impl<V> View for StringMap<V> {
    type V = Map<Seq<char>, V>;

    /// Which value each key stands for.
    closed spec fn view(&self) -> Map<Seq<char>, V> {
        string_map_spec(self.key_views(), self.values@, self.keys.len() as int)
    }
}

impl<V> StringMap<V> {
    /// The views of the registered keys, in registration order.
    pub closed spec fn key_views(&self) -> Seq<Seq<char>> {
        self.keys@.map_values(|k: String| k@)
    }

    /// The keys are registered once each, beside one value each.
    pub closed spec fn wf(&self) -> bool {
        &&& self.keys.len() == self.values.len()
        &&& forall|a: int, b: int|
            0 <= a < b < self.keys.len() ==> self.key_views()[a] != self.key_views()[b]
    }

}

impl<V: Copy> StringMap<V> {
    /// An empty map.
    pub fn new() -> (r: StringMap<V>)
        ensures
            r.wf(),
            r@ == Map::<Seq<char>, V>::empty(),
    {
        StringMap { keys: Vec::new(), values: Vec::new() }
    }

    /// The index at which `key` is registered, if it is.
    fn position(&self, key: &str) -> (res: Option<usize>)
        requires
            self.wf(),
        ensures
            match res {
                Some(i) => i < self.keys.len() && self.key_views()[i as int] == key@,
                None => forall|j: int| 0 <= j < self.keys.len() ==> self.key_views()[j] != key@,
            },
    {
        let target = key.to_owned();
        let mut i: usize = 0;
        while i < self.keys.len()
            invariant
                i <= self.keys.len(),
                target@ == key@,
                forall|j: int| 0 <= j < i ==> self.key_views()[j] != key@,
            decreases self.keys.len() - i,
        {
            if self.keys[i] == target {
                return Some(i);
            }
            i = i + 1;
        }
        None
    }

    /// The value for `key`, if any.
    pub fn get(&self, key: &str) -> (res: Option<V>)
        requires
            self.wf(),
        ensures
            res == (if self@.dom().contains(key@) {
                Some(self@[key@])
            } else {
                None::<V>
            }),
    {
        proof {
            lemma_registry_lookup(self.key_views(), self.values@, self.keys.len() as int, key@);
        }
        match self.position(key) {
            Some(i) => Some(self.values[i]),
            None => None,
        }
    }

    /// Maps `key` to `value`, replacing any value it had before.
    pub fn insert(&mut self, key: &str, value: V)
        requires
            old(self).wf(),
        ensures
            final(self).wf(),
            final(self)@ == old(self)@.insert(key@, value),
    {
        match self.position(key) {
            Some(i) => {
                proof {
                    lemma_registry_update(
                        self.key_views(),
                        self.values@,
                        self.keys.len() as int,
                        i as int,
                        value,
                    );
                }
                self.values.set(i, value);
            },
            None => {
                let ghost old_keys = self.key_views();
                let ghost old_values = self.values@;
                proof {
                    lemma_registry_push(old_keys, old_values, self.keys.len() as int, key@, value);
                }
                self.keys.push(key.to_owned());
                self.values.push(value);
                assert(self.key_views() =~= old_keys.push(key@));
            },
        }
    }
}

impl KeyRegistry {
    /// An empty registry.
    pub fn new() -> (r: KeyRegistry)
        ensures
            r.0.wf(),
            r.0@ == Map::<Seq<char>, u64>::empty(),
    {
        KeyRegistry(StringMap::new())
    }
}

/// Looking a key up after inserting it gives the value just inserted, and
/// inserting one key leaves every other key as it was.
pub proof fn law_registry_read_after_write<V>(
    before: StringMap<V>,
    after: StringMap<V>,
    key: Seq<char>,
    value: V,
    other: Seq<char>,
)
    requires
        after@ == before@.insert(key, value),
    ensures
        after@.dom().contains(key),
        after@[key] == value,
        other != key ==> (after@.dom().contains(other) == before@.dom().contains(other)),
        other != key && before@.dom().contains(other) ==> after@[other] == before@[other],
{
}

} // verus!
