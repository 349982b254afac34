//! A lazy mapping: every entry in a slot of its own, named by the key of the
//! mapping and the encoded key of the entry. No operation walks the entries.

use crate::codec::{decode, decode_spec, encode, lemma_encoding_injective, Codec, DecodeError};
use crate::key::{
    lemma_slots_of_distinct_keys, lemma_slots_of_distinct_suffixes, slot, StorageKey,
};
use crate::store::Store;
use core::marker::PhantomData;
use vstd::prelude::*;

verus! {

/// What the mapping from `K` to `V` under `base` holds for `k` in `store`:
/// nothing where the slot of `k` is empty, else the value that its bytes
/// decode to, or the reason why they do not decode.
pub open spec fn entry_value<K: Codec, V: Codec>(
    store: Map<Seq<u8>, Seq<u8>>,
    base: StorageKey,
    k: K::Model,
) -> Result<Option<V::Model>, DecodeError> {
    let name = slot(base, K::encoding(k));
    if store.contains_key(name) {
        match decode_spec::<V>(store[name]) {
            Ok(m) => Ok(Some(m)),
            Err(e) => Err(e),
        }
    } else {
        Ok(None)
    }
}

/// Binds the entries of a map from `K` to `V` to slots derived from one key.
#[derive(Debug)]
pub struct LazyMapping<K, V> {
    base: StorageKey,
    marker: PhantomData<(K, V)>,
}

impl<K: Codec, V: Codec> LazyMapping<K, V> {
    /// The key of the mapping.
    pub closed spec fn base(&self) -> StorageKey {
        self.base
    }

    /// The slot of the entry `k`: the key of the mapping, then the encoding
    /// of `k`.
    pub open spec fn entry_slot(&self, k: K::Model) -> Seq<u8> {
        slot(self.base(), K::encoding(k))
    }

    /// What the mapping holds for `k` in `store`.
    pub open spec fn value_at(&self, store: Map<Seq<u8>, Seq<u8>>, k: K::Model) -> Result<
        Option<V::Model>,
        DecodeError,
    > {
        entry_value::<K, V>(store, self.base(), k)
    }

    /// The mapping under `base`.
    pub fn new(base: StorageKey) -> (r: Self)
        ensures
            r.base() == base,
    {
        LazyMapping { base, marker: PhantomData }
    }

    /// The key of the mapping.
    pub fn storage_key(&self) -> (r: StorageKey)
        ensures
            r == self.base(),
    {
        self.base
    }

    /// The name of the slot of `k`.
    fn slot_name(&self, k: &K) -> (r: Vec<u8>)
        ensures
            r@ == self.entry_slot(k.model()),
            K::representable(k.model()),
    {
        let mut name: Vec<u8> = self.base.slot_prefix();
        k.encode_to(&mut name);
        assert(name@ =~= self.entry_slot(k.model()));
        name
    }

    /// The value of the entry `k`. An empty slot gives `None`; bytes that do
    /// not decode give the error.
    pub fn get(&self, store: &Store, k: &K) -> (r: Result<Option<V>, DecodeError>)
        ensures
            match self.value_at(store@, k.model()) {
                Ok(Some(m)) => r matches Ok(Some(v)) && v.model() == m && V::representable(m),
                Ok(None) => r matches Ok(None),
                Err(e) => r matches Err(x) && x == e,
            },
    {
        let name: Vec<u8> = self.slot_name(k);
        match store.get(name.as_slice()) {
            None => Ok(None),
            Some(bytes) => match decode::<V>(bytes.as_slice()) {
                Ok(v) => Ok(Some(v)),
                Err(e) => Err(e),
            },
        }
    }

    /// Puts `v` under `k`, in place of what the entry held. Every other
    /// entry, of this mapping and of any binding under another key, stays.
    pub fn insert(&self, store: &mut Store, k: &K, v: &V)
        ensures
            final(store)@ == old(store)@.insert(
                self.entry_slot(k.model()),
                V::encoding(v.model()),
            ),
            self.value_at(final(store)@, k.model()) == Ok::<Option<V::Model>, DecodeError>(
                Some(v.model()),
            ),
            forall|other: K::Model|
                K::representable(other) && other != k.model() ==> #[trigger] self.value_at(
                    final(store)@,
                    other,
                ) == self.value_at(old(store)@, other),
            K::representable(k.model()),
            V::representable(v.model()),
    {
        let name: Vec<u8> = self.slot_name(k);
        let bytes: Vec<u8> = encode(v);
        proof {
            crate::codec::lemma_decode_inverts_encode::<V>(v.model());
            assert forall|other: K::Model|
                K::representable(other) && other != k.model() implies #[trigger] self.value_at(
                store@.insert(name@, bytes@),
                other,
            ) == self.value_at(store@, other) by {
                lemma_insert_isolated(*self, store@, k.model(), bytes@, other);
            }
        }
        store.set(name.as_slice(), bytes);
    }

    /// Empties the entry `k`. Where it is empty already, nothing changes.
    pub fn remove(&self, store: &mut Store, k: &K)
        ensures
            final(store)@ == old(store)@.remove(self.entry_slot(k.model())),
            self.value_at(final(store)@, k.model()) == Ok::<Option<V::Model>, DecodeError>(None),
            !old(store)@.contains_key(self.entry_slot(k.model())) ==> final(store)@ == old(
                store,
            )@,
            forall|other: K::Model|
                K::representable(other) && other != k.model() ==> #[trigger] self.value_at(
                    final(store)@,
                    other,
                ) == self.value_at(old(store)@, other),
    {
        let name: Vec<u8> = self.slot_name(k);
        proof {
            assert forall|other: K::Model|
                K::representable(other) && other != k.model() implies #[trigger] self.value_at(
                store@.remove(name@),
                other,
            ) == self.value_at(store@, other) by {
                lemma_remove_isolated(*self, store@, k.model(), other);
            }
        }
        store.clear(name.as_slice());
        proof {
            if !old(store)@.contains_key(self.entry_slot(k.model())) {
                assert(store@ =~= old(store)@);
            }
        }
    }

    /// Whether the entry `k` holds anything. The bytes are not decoded.
    pub fn contains(&self, store: &Store, k: &K) -> (r: bool)
        ensures
            r == store@.contains_key(self.entry_slot(k.model())),
    {
        let name: Vec<u8> = self.slot_name(k);
        store.contains(name.as_slice())
    }
}

/// Different entries of one mapping have different slots.
pub proof fn lemma_entry_slots_differ<K: Codec, V: Codec>(
    mapping: LazyMapping<K, V>,
    k1: K::Model,
    k2: K::Model,
)
    requires
        K::representable(k1),
        K::representable(k2),
        k1 != k2,
    ensures
        mapping.entry_slot(k1) != mapping.entry_slot(k2),
{
    lemma_encoding_injective::<K>(k1, k2);
    lemma_slots_of_distinct_suffixes(mapping.base(), K::encoding(k1), K::encoding(k2));
}

/// Isolation: putting bytes under `k1` leaves what the mapping holds for any
/// other key `k2`.
pub proof fn lemma_insert_isolated<K: Codec, V: Codec>(
    mapping: LazyMapping<K, V>,
    store: Map<Seq<u8>, Seq<u8>>,
    k1: K::Model,
    bytes: Seq<u8>,
    k2: K::Model,
)
    requires
        K::representable(k1),
        K::representable(k2),
        k1 != k2,
    ensures
        mapping.value_at(store.insert(mapping.entry_slot(k1), bytes), k2) == mapping.value_at(
            store,
            k2,
        ),
{
    lemma_entry_slots_differ(mapping, k1, k2);
}

/// Isolation: emptying the entry `k1` leaves what the mapping holds for any
/// other key `k2`.
pub proof fn lemma_remove_isolated<K: Codec, V: Codec>(
    mapping: LazyMapping<K, V>,
    store: Map<Seq<u8>, Seq<u8>>,
    k1: K::Model,
    k2: K::Model,
)
    requires
        K::representable(k1),
        K::representable(k2),
        k1 != k2,
    ensures
        mapping.value_at(store.remove(mapping.entry_slot(k1)), k2) == mapping.value_at(store, k2),
{
    lemma_entry_slots_differ(mapping, k1, k2);
}

/// A pair key is sensitive to the order of its parts: the entries `(a, b)`
/// and `(b, a)` have different slots where `a` and `b` differ, so putting a
/// value under one leaves what the mapping holds for the other.
pub proof fn lemma_pair_keys_order_sensitive<A: Codec, V: Codec>(
    mapping: LazyMapping<(A, A), V>,
    store: Map<Seq<u8>, Seq<u8>>,
    a: A::Model,
    b: A::Model,
    bytes: Seq<u8>,
)
    requires
        A::representable(a),
        A::representable(b),
        a != b,
    ensures
        mapping.entry_slot((a, b)) != mapping.entry_slot((b, a)),
        mapping.value_at(store.insert(mapping.entry_slot((b, a)), bytes), (a, b))
            == mapping.value_at(store, (a, b)),
{
    lemma_entry_slots_differ(mapping, (b, a), (a, b));
}

/// Emptying an entry that is empty changes nothing.
pub proof fn lemma_remove_absent_changes_nothing<K: Codec, V: Codec>(
    mapping: LazyMapping<K, V>,
    store: Map<Seq<u8>, Seq<u8>>,
    k: K::Model,
)
    requires
        !store.contains_key(mapping.entry_slot(k)),
    ensures
        store.remove(mapping.entry_slot(k)) == store,
{
    assert(store.remove(mapping.entry_slot(k)) =~= store);
}

/// Emptying an entry twice leaves the store as emptying it once does.
pub proof fn lemma_remove_idempotent<K: Codec, V: Codec>(
    mapping: LazyMapping<K, V>,
    store: Map<Seq<u8>, Seq<u8>>,
    k: K::Model,
)
    ensures
        store.remove(mapping.entry_slot(k)).remove(mapping.entry_slot(k)) == store.remove(
            mapping.entry_slot(k),
        ),
{
    assert(store.remove(mapping.entry_slot(k)).remove(mapping.entry_slot(k)) =~= store.remove(
        mapping.entry_slot(k),
    ));
}

/// Bindings under different keys never share a slot: what one mapping is
/// given leaves every entry of a mapping under another key.
pub proof fn lemma_mappings_isolated<K1: Codec, V1: Codec, K2: Codec, V2: Codec>(
    written: LazyMapping<K1, V1>,
    other: LazyMapping<K2, V2>,
    store: Map<Seq<u8>, Seq<u8>>,
    k1: K1::Model,
    bytes: Seq<u8>,
    k2: K2::Model,
)
    requires
        written.base() != other.base(),
    ensures
        written.entry_slot(k1) != other.entry_slot(k2),
        other.value_at(store.insert(written.entry_slot(k1), bytes), k2) == other.value_at(
            store,
            k2,
        ),
{
    lemma_slots_of_distinct_keys(written.base(), other.base(), K1::encoding(k1), K2::encoding(k2));
}

} // verus!
