//! The backing store: byte strings under byte-string keys.

use vstd::prelude::*;

verus! {

/// Whether two byte strings are the same.
pub fn bytes_equal(a: &[u8], b: &[u8]) -> (r: bool)
    ensures
        r == (a@ == b@),
{
    if a.len() != b.len() {
        return false;
    }
    let mut i: usize = 0;
    while i < a.len()
        invariant
            i <= a@.len(),
            a@.len() == b@.len(),
            forall|j: int| 0 <= j < i ==> a@[j] == b@[j],
        decreases a@.len() - i,
    {
        if a[i] != b[i] {
            return false;
        }
        i = i + 1;
    }
    assert(a@ =~= b@);
    true
}

/// Whether slot `i` of `entries` is the slot of `key`.
spec fn slot_of(entries: Seq<(Vec<u8>, Vec<u8>)>, key: Seq<u8>, i: int) -> bool {
    0 <= i < entries.len() && entries[i].0@ == key
}

/// No key has two slots.
spec fn keys_unique(entries: Seq<(Vec<u8>, Vec<u8>)>) -> bool {
    forall|i: int, j: int|
        0 <= i < j < entries.len() ==> (#[trigger] entries[i]).0@ != (#[trigger] entries[j]).0@
}

/// The map that the slots spell.
spec fn content(entries: Seq<(Vec<u8>, Vec<u8>)>) -> Map<Seq<u8>, Seq<u8>> {
    Map::new(
        |key: Seq<u8>| exists|i: int| slot_of(entries, key, i),
        |key: Seq<u8>| entries[choose|i: int| slot_of(entries, key, i)].1@,
    )
}

proof fn lemma_content_of_slot(entries: Seq<(Vec<u8>, Vec<u8>)>, i: int)
    requires
        keys_unique(entries),
        0 <= i < entries.len(),
    ensures
        content(entries).contains_key(entries[i].0@),
        content(entries)[entries[i].0@] == entries[i].1@,
{
    let key = entries[i].0@;
    assert(slot_of(entries, key, i));
    let j = choose|j: int| slot_of(entries, key, j);
    if j != i {
        if j < i {
            assert(entries[j].0@ != entries[i].0@);
        } else {
            assert(entries[i].0@ != entries[j].0@);
        }
    }
}

proof fn lemma_content_without_slot(entries: Seq<(Vec<u8>, Vec<u8>)>, key: Seq<u8>)
    requires
        forall|i: int| 0 <= i < entries.len() ==> (#[trigger] entries[i]).0@ != key,
    ensures
        !content(entries).contains_key(key),
{
    if content(entries).contains_key(key) {
        let j = choose|j: int| slot_of(entries, key, j);
        assert(entries[j].0@ != key);
    }
}

proof fn lemma_content_of_no_slots(entries: Seq<(Vec<u8>, Vec<u8>)>)
    requires
        entries.len() == 0,
    ensures
        content(entries) == Map::<Seq<u8>, Seq<u8>>::empty(),
        keys_unique(entries),
{
    assert forall|key: Seq<u8>| !(#[trigger] content(entries).contains_key(key)) by {
        lemma_content_without_slot(entries, key);
    }
    assert(content(entries) =~= Map::<Seq<u8>, Seq<u8>>::empty());
}

proof fn lemma_content_after_push(entries: Seq<(Vec<u8>, Vec<u8>)>, slot: (Vec<u8>, Vec<u8>))
    requires
        keys_unique(entries),
        !content(entries).contains_key(slot.0@),
    ensures
        keys_unique(entries.push(slot)),
        content(entries.push(slot)) == content(entries).insert(slot.0@, slot.1@),
{
    let grown = entries.push(slot);
    assert forall|i: int, j: int| 0 <= i < j < grown.len() implies (#[trigger] grown[i]).0@ != (
    #[trigger] grown[j]).0@ by {
        if j == entries.len() {
            if grown[i].0@ == slot.0@ {
                assert(slot_of(entries, slot.0@, i));
            }
        } else {
            assert(entries[i].0@ != entries[j].0@);
        }
    }
    assert forall|key: Seq<u8>| #[trigger]
        content(grown).contains_key(key) == content(entries).insert(slot.0@, slot.1@).contains_key(
            key,
        ) by {
        if content(grown).contains_key(key) {
            let i = choose|i: int| slot_of(grown, key, i);
            if i < entries.len() {
                assert(slot_of(entries, key, i));
            }
        }
        if content(entries).contains_key(key) {
            let i = choose|i: int| slot_of(entries, key, i);
            assert(slot_of(grown, key, i));
        }
        if key == slot.0@ {
            assert(slot_of(grown, key, entries.len() as int));
        }
    }
    assert forall|key: Seq<u8>| #[trigger] content(grown).contains_key(key) implies content(
        grown,
    )[key] == content(entries).insert(slot.0@, slot.1@)[key] by {
        let i = choose|i: int| slot_of(grown, key, i);
        lemma_content_of_slot(grown, i);
        if i < entries.len() {
            assert(slot_of(entries, key, i));
            lemma_content_of_slot(entries, i);
        }
    }
    assert(content(grown) =~= content(entries).insert(slot.0@, slot.1@));
}

proof fn lemma_content_after_swap_remove(entries: Seq<(Vec<u8>, Vec<u8>)>, i: int)
    requires
        keys_unique(entries),
        0 <= i < entries.len(),
    ensures
        keys_unique(entries.update(i, entries.last()).drop_last()),
        content(entries.update(i, entries.last()).drop_last()) == content(entries).remove(
            entries[i].0@,
        ),
{
    let key = entries[i].0@;
    let last = entries.len() - 1;
    let shrunk = entries.update(i, entries.last()).drop_last();
    // where slot `a` of `shrunk` stood in `entries`
    let origin = |a: int| if a == i { last } else { a };
    assert forall|a: int, b: int| 0 <= a < b < shrunk.len() implies (#[trigger] shrunk[a]).0@ != (
    #[trigger] shrunk[b]).0@ by {
        let oa = origin(a);
        let ob = origin(b);
        assert(shrunk[a] == entries[oa] && shrunk[b] == entries[ob]);
        if oa < ob {
            assert(entries[oa].0@ != entries[ob].0@);
        } else {
            assert(entries[ob].0@ != entries[oa].0@);
        }
    }
    assert forall|k: Seq<u8>| #[trigger]
        content(shrunk).contains_key(k) == content(entries).remove(key).contains_key(k) by {
        if content(shrunk).contains_key(k) {
            let a = choose|a: int| slot_of(shrunk, k, a);
            let oa = origin(a);
            assert(shrunk[a] == entries[oa]);
            assert(slot_of(entries, k, oa));
            if oa < i {
                assert(entries[oa].0@ != entries[i].0@);
            } else if i < oa {
                assert(entries[i].0@ != entries[oa].0@);
            }
        }
        if content(entries).remove(key).contains_key(k) {
            let b = choose|b: int| slot_of(entries, k, b);
            assert(b != i);
            if b == last {
                assert(shrunk[i] == entries[last]);
                assert(slot_of(shrunk, k, i));
            } else {
                assert(shrunk[b] == entries[b]);
                assert(slot_of(shrunk, k, b));
            }
        }
    }
    assert forall|k: Seq<u8>| #[trigger] content(shrunk).contains_key(k) implies content(shrunk)[k]
        == content(entries).remove(key)[k] by {
        let a = choose|a: int| slot_of(shrunk, k, a);
        lemma_content_of_slot(shrunk, a);
        let oa = origin(a);
        assert(shrunk[a] == entries[oa]);
        lemma_content_of_slot(entries, oa);
    }
    assert(content(shrunk) =~= content(entries).remove(key));
}

/// A key-value store in memory. Its view is the map from keys to values.
#[derive(Debug)]
pub struct Store {
    entries: Vec<(Vec<u8>, Vec<u8>)>,
}

impl View for Store {
    type V = Map<Seq<u8>, Seq<u8>>;

    closed spec fn view(&self) -> Map<Seq<u8>, Seq<u8>> {
        content(self.entries@)
    }
}

impl Store {
    #[verifier::type_invariant]
    spec fn well_formed(&self) -> bool {
        keys_unique(self.entries@)
    }

    /// The empty store.
    pub fn new() -> (r: Store)
        ensures
            r@ == Map::<Seq<u8>, Seq<u8>>::empty(),
    {
        let r = Store { entries: Vec::new() };
        proof {
            lemma_content_of_no_slots(r.entries@);
        }
        r
    }

    /// Moves the slots out and leaves the store empty.
    fn take_entries(&mut self) -> (r: Vec<(Vec<u8>, Vec<u8>)>)
        ensures
            r@ == old(self).entries@,
            final(self).entries@.len() == 0,
    {
        let mut taken = Store { entries: Vec::new() };
        proof {
            lemma_content_of_no_slots(taken.entries@);
        }
        core::mem::swap(self, &mut taken);
        taken.entries
    }

    /// The slot of `key`, if it has one.
    fn find(&self, key: &[u8]) -> (r: Option<usize>)
        ensures
            match r {
                Some(i) => i < self.entries@.len() && self.entries@[i as int].0@ == key@,
                None => !self@.contains_key(key@),
            },
    {
        let mut i: usize = 0;
        while i < self.entries.len()
            invariant
                i <= self.entries@.len(),
                forall|j: int| 0 <= j < i ==> (#[trigger] self.entries@[j]).0@ != key@,
            decreases self.entries@.len() - i,
        {
            if bytes_equal(self.entries[i].0.as_slice(), key) {
                return Some(i);
            }
            i = i + 1;
        }
        proof {
            lemma_content_without_slot(self.entries@, key@);
        }
        None
    }

    /// The bytes under `key`, or nothing where the slot is empty.
    pub fn get(&self, key: &[u8]) -> (r: Option<&Vec<u8>>)
        ensures
            match r {
                Some(value) => self@.contains_key(key@) && value@ == self@[key@],
                None => !self@.contains_key(key@),
            },
    {
        match self.find(key) {
            None => None,
            Some(i) => {
                proof {
                    use_type_invariant(self);
                    lemma_content_of_slot(self.entries@, i as int);
                }
                Some(&self.entries[i].1)
            },
        }
    }

    /// Whether the slot of `key` holds anything.
    pub fn contains(&self, key: &[u8]) -> (r: bool)
        ensures
            r == self@.contains_key(key@),
    {
        match self.find(key) {
            None => false,
            Some(i) => {
                proof {
                    use_type_invariant(self);
                    lemma_content_of_slot(self.entries@, i as int);
                }
                true
            },
        }
    }

    /// The keys of the slots that hold something, each of them once.
    pub fn keys(&self) -> (r: Vec<Vec<u8>>)
        ensures
            forall|i: int| 0 <= i < r@.len() ==> self@.contains_key(#[trigger] r@[i]@),
            forall|key: Seq<u8>| #[trigger]
                self@.contains_key(key) ==> exists|i: int| 0 <= i < r@.len() && r@[i]@ == key,
            forall|i: int, j: int| 0 <= i < j < r@.len() ==> r@[i]@ != r@[j]@,
    {
        proof {
            use_type_invariant(self);
        }
        let mut keys: Vec<Vec<u8>> = Vec::new();
        let mut i: usize = 0;
        while i < self.entries.len()
            invariant
                i <= self.entries@.len(),
                keys@.len() == i,
                forall|j: int| 0 <= j < i ==> (#[trigger] keys@[j])@ == self.entries@[j].0@,
            decreases self.entries@.len() - i,
        {
            keys.push(vstd::slice::slice_to_vec(self.entries[i].0.as_slice()));
            i = i + 1;
        }
        proof {
            assert forall|j: int| 0 <= j < keys@.len() implies self@.contains_key(
                #[trigger] keys@[j]@,
            ) by {
                lemma_content_of_slot(self.entries@, j);
            }
            assert forall|key: Seq<u8>| #[trigger] self@.contains_key(key) implies exists|j: int|
                0 <= j < keys@.len() && keys@[j]@ == key by {
                let j = choose|j: int| slot_of(self.entries@, key, j);
                assert(keys@[j]@ == key);
            }
            assert forall|a: int, b: int| 0 <= a < b < keys@.len() implies keys@[a]@
                != keys@[b]@ by {
                assert(self.entries@[a].0@ != self.entries@[b].0@);
            }
        }
        keys
    }

    /// Empties the slot of `key`. An empty slot stays empty.
    pub fn clear(&mut self, key: &[u8])
        ensures
            final(self)@ == old(self)@.remove(key@),
    {
        proof {
            use_type_invariant(&*self);
        }
        match self.find(key) {
            None => {
                assert(self@.remove(key@) =~= self@);
            },
            Some(i) => {
                proof {
                    lemma_content_after_swap_remove(self.entries@, i as int);
                }
                let mut entries: Vec<(Vec<u8>, Vec<u8>)> = self.take_entries();
                entries.swap_remove(i);
                *self = Store { entries };
            },
        }
    }

    /// Puts `value` under `key`, in place of what the slot held.
    pub fn set(&mut self, key: &[u8], value: Vec<u8>)
        ensures
            final(self)@ == old(self)@.insert(key@, value@),
    {
        self.clear(key);
        let owned: Vec<u8> = vstd::slice::slice_to_vec(key);
        proof {
            use_type_invariant(&*self);
            lemma_content_after_push(self.entries@, (owned, value));
        }
        let mut entries: Vec<(Vec<u8>, Vec<u8>)> = self.take_entries();
        entries.push((owned, value));
        *self = Store { entries };
        assert(old(self)@.remove(key@).insert(key@, value@) =~= old(self)@.insert(key@, value@));
    }
}

} // verus!
