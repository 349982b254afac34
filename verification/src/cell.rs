//! A storage cell: one typed value under one key.

use crate::codec::{decode, decode_spec, encode, Codec, DecodeError};
use crate::key::{slot, StorageKey};
use crate::store::Store;
use core::marker::PhantomData;
use vstd::prelude::*;

verus! {

/// What the cell of type `T` under `key` holds in `store`: nothing where its
/// slot is empty, else the value that the bytes of the slot decode to, or the
/// reason why they do not decode.
pub open spec fn cell_value<T: Codec>(store: Map<Seq<u8>, Seq<u8>>, key: StorageKey) -> Result<
    Option<T::Model>,
    DecodeError,
> {
    let name = slot(key, Seq::<u8>::empty());
    if store.contains_key(name) {
        match decode_spec::<T>(store[name]) {
            Ok(m) => Ok(Some(m)),
            Err(e) => Err(e),
        }
    } else {
        Ok(None)
    }
}

/// Binds one value of type `T` to the slot of one key.
#[derive(Debug)]
pub struct StorageCell<T> {
    key: StorageKey,
    marker: PhantomData<T>,
}

impl<T: Codec> StorageCell<T> {
    /// The key of the cell.
    pub closed spec fn key(&self) -> StorageKey {
        self.key
    }

    /// The slot of the cell.
    pub open spec fn slot(&self) -> Seq<u8> {
        slot(self.key(), Seq::<u8>::empty())
    }

    /// What the cell holds in `store`.
    pub open spec fn value_in(&self, store: Map<Seq<u8>, Seq<u8>>) -> Result<
        Option<T::Model>,
        DecodeError,
    > {
        cell_value::<T>(store, self.key())
    }

    /// The cell under `key`.
    pub fn new(key: StorageKey) -> (r: Self)
        ensures
            r.key() == key,
    {
        StorageCell { key, marker: PhantomData }
    }

    /// The key of the cell.
    pub fn storage_key(&self) -> (r: StorageKey)
        ensures
            r == self.key(),
    {
        self.key
    }

    /// Reads the value. An empty slot gives `None`; bytes that do not decode
    /// give the error.
    pub fn read(&self, store: &Store) -> (r: Result<Option<T>, DecodeError>)
        ensures
            match self.value_in(store@) {
                Ok(Some(m)) => r matches Ok(Some(v)) && v.model() == m && T::representable(m),
                Ok(None) => r matches Ok(None),
                Err(e) => r matches Err(x) && x == e,
            },
    {
        let name: Vec<u8> = self.key.slot_prefix();
        match store.get(name.as_slice()) {
            None => Ok(None),
            Some(bytes) => match decode::<T>(bytes.as_slice()) {
                Ok(v) => Ok(Some(v)),
                Err(e) => Err(e),
            },
        }
    }

    /// Writes `value` in place of what the slot held.
    pub fn write(&self, store: &mut Store, value: &T)
        ensures
            final(store)@ == old(store)@.insert(self.slot(), T::encoding(value.model())),
            self.value_in(final(store)@) == Ok::<Option<T::Model>, DecodeError>(
                Some(value.model()),
            ),
            T::representable(value.model()),
    {
        let name: Vec<u8> = self.key.slot_prefix();
        let bytes: Vec<u8> = encode(value);
        proof {
            crate::codec::lemma_decode_inverts_encode::<T>(value.model());
        }
        store.set(name.as_slice(), bytes);
    }
}

/// Writing the same value twice leaves the store as one write does.
pub proof fn lemma_write_idempotent<T: Codec>(
    cell: StorageCell<T>,
    store: Map<Seq<u8>, Seq<u8>>,
    m: T::Model,
)
    ensures
        store.insert(cell.slot(), T::encoding(m)).insert(cell.slot(), T::encoding(m))
            == store.insert(cell.slot(), T::encoding(m)),
{
    assert(store.insert(cell.slot(), T::encoding(m)).insert(cell.slot(), T::encoding(m))
        =~= store.insert(cell.slot(), T::encoding(m)));
}

/// A write to one cell leaves what a cell under another key holds.
pub proof fn lemma_cells_isolated<T: Codec, U: Codec>(
    written: StorageCell<T>,
    other: StorageCell<U>,
    store: Map<Seq<u8>, Seq<u8>>,
    bytes: Seq<u8>,
)
    requires
        written.key() != other.key(),
    ensures
        other.value_in(store.insert(written.slot(), bytes)) == other.value_in(store),
{
    crate::key::lemma_slots_of_distinct_keys(
        written.key(),
        other.key(),
        Seq::<u8>::empty(),
        Seq::<u8>::empty(),
    );
}

} // verus!
