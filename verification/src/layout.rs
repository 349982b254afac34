//! The declared bindings of the root record and the keys they resolve to.

use crate::key::{field_key, keys_distinct, pairwise_distinct, StorageKey};
use vstd::prelude::*;

verus! {

/// The key of every binding of the root record: five cells, one for each
/// sub-record, and four mappings.
#[derive(Debug, Clone, Copy, PartialEq, Eq, Structural)]
pub struct Layout {
    pub ink_prelude_types: StorageKey,
    pub primitive_types: StorageKey,
    pub signed_integers: StorageKey,
    pub substrate_types: StorageKey,
    pub unsigned_integers: StorageKey,
    pub mapping_u128_u128_value: StorageKey,
    pub mapping_account_balance_value: StorageKey,
    pub mapping_account_hash_value: StorageKey,
    pub mapping_account_account_balance_value: StorageKey,
}

impl Layout {
    /// The keys in declaration order.
    pub open spec fn keys(&self) -> Seq<StorageKey> {
        seq![
            self.ink_prelude_types,
            self.primitive_types,
            self.signed_integers,
            self.substrate_types,
            self.unsigned_integers,
            self.mapping_u128_u128_value,
            self.mapping_account_balance_value,
            self.mapping_account_hash_value,
            self.mapping_account_account_balance_value,
        ]
    }

    /// The keys that the names of the declared fields resolve to: the cells
    /// are fields of `StorageTypes`, the mappings fields of `MappingTypes`.
    pub open spec fn declared() -> Layout {
        Layout {
            ink_prelude_types: StorageKey {
                id: field_key("StorageTypes"@, Seq::<char>::empty(), "ink_prelude_types"@),
            },
            primitive_types: StorageKey {
                id: field_key("StorageTypes"@, Seq::<char>::empty(), "primitive_types"@),
            },
            signed_integers: StorageKey {
                id: field_key("StorageTypes"@, Seq::<char>::empty(), "signed_integers"@),
            },
            substrate_types: StorageKey {
                id: field_key("StorageTypes"@, Seq::<char>::empty(), "substrate_types"@),
            },
            unsigned_integers: StorageKey {
                id: field_key("StorageTypes"@, Seq::<char>::empty(), "unsigned_integers"@),
            },
            mapping_u128_u128_value: StorageKey {
                id: field_key("MappingTypes"@, Seq::<char>::empty(), "mapping_u128_u128_value"@),
            },
            mapping_account_balance_value: StorageKey {
                id: field_key("MappingTypes"@, Seq::<char>::empty(), "mapping_account_balance_value"@),
            },
            mapping_account_hash_value: StorageKey {
                id: field_key("MappingTypes"@, Seq::<char>::empty(), "mapping_account_hash_value"@),
            },
            mapping_account_account_balance_value: StorageKey {
                id: field_key("MappingTypes"@, Seq::<char>::empty(), "mapping_account_account_balance_value"@),
            },
        }
    }

    /// Resolves the key of every declared field.
    pub fn resolve() -> (r: Layout)
        ensures
            r == Layout::declared(),
    {
        proof {
            reveal_strlit("StorageTypes");
            reveal_strlit("MappingTypes");
            reveal_strlit("ink_prelude_types");
            reveal_strlit("primitive_types");
            reveal_strlit("signed_integers");
            reveal_strlit("substrate_types");
            reveal_strlit("unsigned_integers");
            reveal_strlit("mapping_u128_u128_value");
            reveal_strlit("mapping_account_balance_value");
            reveal_strlit("mapping_account_hash_value");
            reveal_strlit("mapping_account_account_balance_value");
        }
        let ink_prelude_types: Option<StorageKey> = StorageKey::for_field("StorageTypes", "ink_prelude_types");
        let primitive_types: Option<StorageKey> = StorageKey::for_field("StorageTypes", "primitive_types");
        let signed_integers: Option<StorageKey> = StorageKey::for_field("StorageTypes", "signed_integers");
        let substrate_types: Option<StorageKey> = StorageKey::for_field("StorageTypes", "substrate_types");
        let unsigned_integers: Option<StorageKey> = StorageKey::for_field("StorageTypes", "unsigned_integers");
        let mapping_u128_u128_value: Option<StorageKey> = StorageKey::for_field("MappingTypes", "mapping_u128_u128_value");
        let mapping_account_balance_value: Option<StorageKey> = StorageKey::for_field("MappingTypes", "mapping_account_balance_value");
        let mapping_account_hash_value: Option<StorageKey> = StorageKey::for_field("MappingTypes", "mapping_account_hash_value");
        let mapping_account_account_balance_value: Option<StorageKey> = StorageKey::for_field("MappingTypes", "mapping_account_account_balance_value");
        Layout {
            ink_prelude_types: ink_prelude_types.unwrap(),
            primitive_types: primitive_types.unwrap(),
            signed_integers: signed_integers.unwrap(),
            substrate_types: substrate_types.unwrap(),
            unsigned_integers: unsigned_integers.unwrap(),
            mapping_u128_u128_value: mapping_u128_u128_value.unwrap(),
            mapping_account_balance_value: mapping_account_balance_value.unwrap(),
            mapping_account_hash_value: mapping_account_hash_value.unwrap(),
            mapping_account_account_balance_value: mapping_account_account_balance_value.unwrap(),
        }
    }

    /// Whether every binding has a key of its own.
    pub fn collision_free(&self) -> (r: bool)
        ensures
            r == pairwise_distinct(self.keys()),
    {
        let mut keys: Vec<StorageKey> = Vec::new();
        keys.push(self.ink_prelude_types);
        keys.push(self.primitive_types);
        keys.push(self.signed_integers);
        keys.push(self.substrate_types);
        keys.push(self.unsigned_integers);
        keys.push(self.mapping_u128_u128_value);
        keys.push(self.mapping_account_balance_value);
        keys.push(self.mapping_account_hash_value);
        keys.push(self.mapping_account_account_balance_value);
        assert(keys@ =~= self.keys());
        keys_distinct(keys.as_slice())
    }

    /// Bindings of a collision-free layout differ in their keys, field by field.
    pub proof fn lemma_fields_differ(&self)
        requires
            pairwise_distinct(self.keys()),
        ensures
            self.ink_prelude_types != self.primitive_types,
            self.ink_prelude_types != self.signed_integers,
            self.ink_prelude_types != self.substrate_types,
            self.ink_prelude_types != self.unsigned_integers,
            self.ink_prelude_types != self.mapping_u128_u128_value,
            self.ink_prelude_types != self.mapping_account_balance_value,
            self.ink_prelude_types != self.mapping_account_hash_value,
            self.ink_prelude_types != self.mapping_account_account_balance_value,
            self.primitive_types != self.signed_integers,
            self.primitive_types != self.substrate_types,
            self.primitive_types != self.unsigned_integers,
            self.primitive_types != self.mapping_u128_u128_value,
            self.primitive_types != self.mapping_account_balance_value,
            self.primitive_types != self.mapping_account_hash_value,
            self.primitive_types != self.mapping_account_account_balance_value,
            self.signed_integers != self.substrate_types,
            self.signed_integers != self.unsigned_integers,
            self.signed_integers != self.mapping_u128_u128_value,
            self.signed_integers != self.mapping_account_balance_value,
            self.signed_integers != self.mapping_account_hash_value,
            self.signed_integers != self.mapping_account_account_balance_value,
            self.substrate_types != self.unsigned_integers,
            self.substrate_types != self.mapping_u128_u128_value,
            self.substrate_types != self.mapping_account_balance_value,
            self.substrate_types != self.mapping_account_hash_value,
            self.substrate_types != self.mapping_account_account_balance_value,
            self.unsigned_integers != self.mapping_u128_u128_value,
            self.unsigned_integers != self.mapping_account_balance_value,
            self.unsigned_integers != self.mapping_account_hash_value,
            self.unsigned_integers != self.mapping_account_account_balance_value,
            self.mapping_u128_u128_value != self.mapping_account_balance_value,
            self.mapping_u128_u128_value != self.mapping_account_hash_value,
            self.mapping_u128_u128_value != self.mapping_account_account_balance_value,
            self.mapping_account_balance_value != self.mapping_account_hash_value,
            self.mapping_account_balance_value != self.mapping_account_account_balance_value,
            self.mapping_account_hash_value != self.mapping_account_account_balance_value,
    {
        let keys = self.keys();
        assert(keys[0] == self.ink_prelude_types);
        assert(keys[1] == self.primitive_types);
        assert(keys[2] == self.signed_integers);
        assert(keys[3] == self.substrate_types);
        assert(keys[4] == self.unsigned_integers);
        assert(keys[5] == self.mapping_u128_u128_value);
        assert(keys[6] == self.mapping_account_balance_value);
        assert(keys[7] == self.mapping_account_hash_value);
        assert(keys[8] == self.mapping_account_account_balance_value);
    }
}

} // verus!
