//! The set of peers that have an active receive loop.

use vstd::prelude::*;
use crate::address::AddressKey;

verus! {

/// The peers that have an active receiver, each at most once.
///
/// The registry is not shared: the router that owns it is its only writer.
pub struct Registry {
    keys: Vec<AddressKey>,
}

/// What `register` answers for `key` when `registered` are the entries.
pub open spec fn register_answer(registered: Set<AddressKey>, key: AddressKey) -> bool {
    !registered.contains(key)
}

/// The entries after `register` of `key`.
pub open spec fn after_register(registered: Set<AddressKey>, key: AddressKey) -> Set<AddressKey> {
    registered.insert(key)
}

/// The entries after `unregister` of `key`.
pub open spec fn after_unregister(registered: Set<AddressKey>, key: AddressKey) -> Set<
    AddressKey,
> {
    registered.remove(key)
}

impl View for Registry {
    type V = Set<AddressKey>;

    /// The set of registered keys.
    closed spec fn view(&self) -> Set<AddressKey> {
        self.keys@.to_set()
    }
}

impl Registry {
    /// No key is held twice.
    pub closed spec fn wf(&self) -> bool {
        self.keys@.no_duplicates()
    }

    /// The registered keys in the order in which they were registered.
    pub closed spec fn order(&self) -> Seq<AddressKey> {
        self.keys@
    }

    /// The order holds exactly the registered keys, each once.
    pub proof fn lemma_order(&self)
        requires
            self.wf(),
        ensures
            self.order().no_duplicates(),
            self.order().to_set() == self@,
            self@.finite(),
            self@.len() == self.order().len(),
    {
        self.keys@.unique_seq_to_set();
    }

    /// A registry without entries.
    pub fn new() -> (registry: Registry)
        ensures
            registry.wf(),
            registry@ == Set::<AddressKey>::empty(),
            registry.order() == Seq::<AddressKey>::empty(),
    {
        let registry = Registry { keys: Vec::new() };
        assert(registry.keys@.to_set() =~= Set::<AddressKey>::empty());
        registry
    }

    /// Whether `key` is registered.
    pub fn contains(&self, key: AddressKey) -> (found: bool)
        requires
            self.wf(),
        ensures
            found == self@.contains(key),
    {
        self.position(key).is_some()
    }

    /// The number of registered keys.
    pub fn len(&self) -> (count: usize)
        requires
            self.wf(),
        ensures
            count == self@.len(),
            count == self.order().len(),
    {
        proof {
            self.lemma_order();
        }
        self.keys.len()
    }

    /// The registered keys in the order in which they were registered.
    pub fn keys(&self) -> (keys: Vec<AddressKey>)
        requires
            self.wf(),
        ensures
            keys@ == self.order(),
    {
        self.keys.clone()
    }

    fn position(&self, key: AddressKey) -> (found: Option<usize>)
        ensures
            match found {
                Some(index) => index < self.keys@.len() && self.keys@[index as int] == key,
                None => !self.keys@.contains(key),
            },
    {
        let mut index: usize = 0;
        while index < self.keys.len()
            invariant
                index <= self.keys@.len(),
                forall|j: int| 0 <= j < index ==> self.keys@[j] != key,
            decreases self.keys@.len() - index,
        {
            if self.keys[index] == key {
                return Some(index);
            }
            index += 1;
        }
        None
    }

    /// Records `key` if it is not registered yet, and says whether it did.
    ///
    /// A key that is already registered leaves the registry as it was.
    pub fn register(&mut self, key: AddressKey) -> (fresh: bool)
        requires
            old(self).wf(),
        ensures
            final(self).wf(),
            fresh == register_answer(old(self)@, key),
            final(self)@ == after_register(old(self)@, key),
            fresh ==> final(self).order() == old(self).order().push(key),
            !fresh ==> final(self).order() == old(self).order(),
    {
        match self.position(key) {
            Some(_) => {
                assert(self.keys@.to_set() =~= self.keys@.to_set().insert(key));
                false
            },
            None => {
                let ghost before = self.keys@;
                self.keys.push(key);
                assert(self.keys@.to_set() =~= before.to_set().insert(key)) by {
                    assert forall|k: AddressKey| #[trigger]
                        self.keys@.to_set().contains(k) <==> before.to_set().insert(
                            key,
                        ).contains(k) by {
                        if before.contains(k) {
                            let j = choose|j: int| 0 <= j < before.len() && before[j] == k;
                            assert(self.keys@[j] == k);
                        }
                        if k == key {
                            assert(self.keys@[before.len() as int] == k);
                        }
                    }
                }
                true
            },
        }
    }

    /// Removes the entry of `key`, if there is one.
    pub fn unregister(&mut self, key: AddressKey)
        requires
            old(self).wf(),
        ensures
            final(self).wf(),
            final(self)@ == after_unregister(old(self)@, key),
            final(self).order() == old(self).order().filter(|k: AddressKey| k != key),
    {
        let ghost before = self.keys@;
        let ghost keep = |k: AddressKey| k != key;
        match self.position(key) {
            Some(index) => {
                self.keys.remove(index);
                proof {
                    let i = index as int;
                    assert(self.keys@ == before.remove(i));
                    assert(self.keys@.no_duplicates());
                    assert(!self.keys@.contains(key)) by {
                        if self.keys@.contains(key) {
                            let j = choose|j: int| 0 <= j < self.keys@.len() && self.keys@[j] == key;
                            if j < i {
                                assert(before[j] == key);
                            } else {
                                assert(before[j + 1] == key);
                            }
                        }
                    }
                    assert(self.keys@.to_set() =~= before.to_set().remove(key)) by {
                        assert forall|k: AddressKey| #[trigger]
                            self.keys@.to_set().contains(k) <==> before.to_set().remove(
                                key,
                            ).contains(k) by {
                            if self.keys@.contains(k) {
                                let j = choose|j: int|
                                    0 <= j < self.keys@.len() && self.keys@[j] == k;
                                if j < i {
                                    assert(before[j] == k);
                                } else {
                                    assert(before[j + 1] == k);
                                }
                            }
                            if before.contains(k) && k != key {
                                let j = choose|j: int| 0 <= j < before.len() && before[j] == k;
                                if j < i {
                                    assert(self.keys@[j] == k);
                                } else {
                                    assert(self.keys@[j - 1] == k);
                                }
                            }
                        }
                    }
                    lemma_filter_drops_one(before, i, key);
                }
            },
            None => {
                proof {
                    assert(self.keys@.to_set() =~= before.to_set().remove(key));
                    lemma_filter_keeps_all(before, key);
                }
            },
        }
    }
}

/// Filtering out a key that does not occur changes nothing.
proof fn lemma_filter_keeps_all(keys: Seq<AddressKey>, key: AddressKey)
    requires
        !keys.contains(key),
    ensures
        keys.filter(|k: AddressKey| k != key) == keys,
    decreases keys.len(),
{
    reveal(Seq::filter);
    if keys.len() > 0 {
        let front = keys.drop_last();
        assert(keys.last() != key) by {
            assert(keys[keys.len() - 1] == keys.last());
        }
        assert(!front.contains(key)) by {
            if front.contains(key) {
                let j = choose|j: int| 0 <= j < front.len() && front[j] == key;
                assert(keys[j] == key);
            }
        }
        lemma_filter_keeps_all(front, key);
        assert(front.push(keys.last()) =~= keys);
    }
}

/// Filtering out a key that occurs once, at `index`, removes that position.
proof fn lemma_filter_drops_one(keys: Seq<AddressKey>, index: int, key: AddressKey)
    requires
        keys.no_duplicates(),
        0 <= index < keys.len(),
        keys[index] == key,
    ensures
        keys.filter(|k: AddressKey| k != key) == keys.remove(index),
    decreases keys.len(),
{
    reveal(Seq::filter);
    let front = keys.drop_last();
    if index == keys.len() - 1 {
        assert(!front.contains(key)) by {
            if front.contains(key) {
                let j = choose|j: int| 0 <= j < front.len() && front[j] == key;
                assert(keys[j] == key);
            }
        }
        lemma_filter_keeps_all(front, key);
        assert(keys.remove(index) =~= front);
    } else {
        assert(keys.last() != key);
        lemma_filter_drops_one(front, index, key);
        assert(keys.remove(index) =~= front.remove(index).push(keys.last()));
    }
}

/// Registering a key twice succeeds exactly once: the first call answers
/// true where the key was absent, and from then on every call for that key
/// answers false, whatever other keys are registered or unregistered in
/// between, until the key itself is unregistered.
pub proof fn lemma_register_once(registered: Set<AddressKey>, key: AddressKey, other: AddressKey)
    ensures
        !register_answer(after_register(registered, key), key),
        register_answer(registered, key) ==> after_register(registered, key) != registered,
        !register_answer(registered, key) ==> after_register(registered, key) == registered,
        !register_answer(registered, key) ==> !register_answer(
            after_register(registered, other),
            key,
        ),
        other != key && !register_answer(registered, key) ==> !register_answer(
            after_unregister(registered, other),
            key,
        ),
        register_answer(after_unregister(registered, key), key),
{
    if !register_answer(registered, key) {
        assert(after_register(registered, key) =~= registered);
    } else {
        assert(after_register(registered, key).contains(key));
    }
}

} // verus!
