//! Storage keys: which slot of the store a binding owns.

use crate::bytes::{le_bytes, lemma_le_value_of_le_bytes, lemma_pow256_values, put_le};
use vstd::prelude::*;

verus! {

/// The key that ink! derives for the field `field_name` of the storage
/// struct `struct_name` (of its variant `variant_name`, where it is an enum):
/// a hash of the three names.
pub uninterp spec fn field_key(
    struct_name: Seq<char>,
    variant_name: Seq<char>,
    field_name: Seq<char>,
) -> u32;

/// `ink::primitives::KeyComposer::compute_key`: the key of a field, which
/// depends on the three names alone, or nothing where the struct's name or
/// the field's name is empty.
#[verifier::external_body]
fn compute_field_key(struct_name: &str, variant_name: &str, field_name: &str) -> (r: Option<u32>)
    ensures
        r is None <==> (struct_name@.len() == 0 || field_name@.len() == 0),
        r matches Some(id) ==> id == field_key(struct_name@, variant_name@, field_name@),
{
    ink::primitives::KeyComposer::compute_key(struct_name, variant_name, field_name).ok()
}

/// The identifier of one binding. Two keys are equal exactly when they
/// address the same slot.
#[derive(Debug, Clone, Copy, PartialEq, Eq, Structural)]
pub struct StorageKey {
    pub id: u32,
}

/// Two bindings were given the same key.
#[derive(Debug, Clone, Copy, PartialEq, Eq, Structural)]
pub struct KeyCollisionError;

/// The slot that the binding `key` owns for the entry whose encoded key is
/// `suffix`. A binding of one value owns the slot with the empty suffix.
pub open spec fn slot(key: StorageKey, suffix: Seq<u8>) -> Seq<u8> {
    le_bytes(key.id as nat, 4) + suffix
}

/// No two keys of `keys` are equal.
pub open spec fn pairwise_distinct(keys: Seq<StorageKey>) -> bool {
    forall|i: int, j: int| 0 <= i < j < keys.len() ==> keys[i] != keys[j]
}

/// Bindings with different keys share no slot, whatever their entries.
pub proof fn lemma_slots_of_distinct_keys(
    a: StorageKey,
    b: StorageKey,
    suffix_a: Seq<u8>,
    suffix_b: Seq<u8>,
)
    requires
        a != b,
    ensures
        slot(a, suffix_a) != slot(b, suffix_b),
{
    lemma_pow256_values();
    lemma_le_value_of_le_bytes(a.id as nat, 4);
    lemma_le_value_of_le_bytes(b.id as nat, 4);
    if slot(a, suffix_a) == slot(b, suffix_b) {
        assert(slot(a, suffix_a).take(4) =~= le_bytes(a.id as nat, 4));
        assert(slot(b, suffix_b).take(4) =~= le_bytes(b.id as nat, 4));
    }
}

/// One binding gives different entries different slots.
pub proof fn lemma_slots_of_distinct_suffixes(key: StorageKey, suffix_a: Seq<u8>, suffix_b: Seq<u8>)
    requires
        suffix_a != suffix_b,
    ensures
        slot(key, suffix_a) != slot(key, suffix_b),
{
    crate::bytes::lemma_le_bytes_len(key.id as nat, 4);
    if slot(key, suffix_a) == slot(key, suffix_b) {
        assert(slot(key, suffix_a).skip(4) =~= suffix_a);
        assert(slot(key, suffix_b).skip(4) =~= suffix_b);
    }
}

impl StorageKey {
    /// The key with this identifier.
    pub fn new(id: u32) -> (r: StorageKey)
        ensures
            r.id == id,
    {
        StorageKey { id }
    }

    /// The key of the field `field_name` of the storage struct `struct_name`,
    /// or nothing where one of the names is empty.
    pub fn for_field(struct_name: &str, field_name: &str) -> (r: Option<StorageKey>)
        ensures
            r is None <==> (struct_name@.len() == 0 || field_name@.len() == 0),
            r matches Some(key) ==> key.id == field_key(
                struct_name@,
                Seq::<char>::empty(),
                field_name@,
            ),
    {
        proof {
            reveal_strlit("");
            assert(""@ =~= Seq::<char>::empty());
        }
        match compute_field_key(struct_name, "", field_name) {
            None => None,
            Some(id) => Some(StorageKey { id }),
        }
    }

    /// Starts a slot name: the four bytes of the key, to which the encoded
    /// key of an entry is appended.
    pub fn slot_prefix(&self) -> (r: Vec<u8>)
        ensures
            r@ == slot(*self, Seq::<u8>::empty()),
    {
        let mut out: Vec<u8> = Vec::new();
        put_le(&mut out, self.id as u128, 4);
        assert(out@ =~= slot(*self, Seq::<u8>::empty()));
        out
    }
}

/// Whether no two keys of `keys` are equal.
pub fn keys_distinct(keys: &[StorageKey]) -> (r: bool)
    ensures
        r == pairwise_distinct(keys@),
{
    let mut j: usize = 0;
    while j < keys.len()
        invariant
            j <= keys@.len(),
            forall|a: int, b: int| 0 <= a < b < j ==> keys@[a] != keys@[b],
        decreases keys@.len() - j,
    {
        let mut i: usize = 0;
        while i < j
            invariant
                i <= j < keys@.len(),
                forall|a: int| 0 <= a < i ==> keys@[a] != keys@[j as int],
            decreases j - i,
        {
            if keys[i].id == keys[j].id {
                return false;
            }
            i = i + 1;
        }
        j = j + 1;
    }
    true
}

} // verus!
