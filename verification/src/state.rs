//! The root record: every cell and mapping of the persisted state, the store
//! they live in, and the values the state starts with.

use crate::cell::{cell_value, StorageCell};
use crate::codec::{Codec, DecodeError};
use crate::key::{lemma_slots_of_distinct_keys, pairwise_distinct, slot, KeyCollisionError};
use crate::layout::Layout;
use crate::mapping::{entry_value, LazyMapping};
use crate::primitives::{AccountId, Balance};
use crate::records::{
    InkPreludeTypes, InkPreludeTypesModel, PrimitiveTypes, PrimitiveTypesModel, SignedIntegers,
    SubstrateTypes, SubstrateTypesModel, UnsignedIntegers,
};
use crate::sequences::models;
use crate::store::Store;
use crate::variants::{EnumWithValues, EnumWithoutValues, Error};
use vstd::pervasive::unreached;
use vstd::prelude::*;

verus! {

/// Thirty-two bytes, each `b`.
pub open spec fn filled(b: u8) -> Seq<u8> {
    Seq::new(32, |i: int| b)
}

/// The unsigned integers that the state starts with: the bounds of every width.
pub open spec fn initial_unsigned_integers() -> UnsignedIntegers {
    UnsignedIntegers {
        u128_value_max: u128::MAX,
        u128_value_min: 0,
        u16_value_max: u16::MAX,
        u16_value_min: 0,
        u32_value_max: u32::MAX,
        u32_value_min: 0,
        u64_value_max: u64::MAX,
        u64_value_min: 0,
        u8_value_max: u8::MAX,
        u8_value_min: 0,
    }
}

/// The signed integers that the state starts with: the bounds of every width.
pub open spec fn initial_signed_integers() -> SignedIntegers {
    SignedIntegers {
        i128_value_max: i128::MAX,
        i128_value_min: i128::MIN,
        i16_value_max: i16::MAX,
        i16_value_min: i16::MIN,
        i32_value_max: i32::MAX,
        i32_value_min: i32::MIN,
        i64_value_max: i64::MAX,
        i64_value_min: i64::MIN,
        i8_value_max: i8::MAX,
        i8_value_min: i8::MIN,
    }
}

/// The primitive values that the state starts with: `true`, `A`,
/// `ThreeValues(1, 2, 3)`, `[3, 2, 1]` and `(7, 8)`.
pub open spec fn initial_primitive_types() -> PrimitiveTypesModel {
    (
        true,
        (
            EnumWithoutValues::A,
            (EnumWithValues::ThreeValues(1, 2, 3), (seq![3u32, 2u32, 1u32], (7u32, 8u32))),
        ),
    )
}

/// The chain values that the state starts with: the account and the hash of
/// zero bytes, between them the largest and the smallest balance.
pub open spec fn initial_substrate_types() -> SubstrateTypesModel {
    (filled(0), (u128::MAX, (0u128, filled(0))))
}

/// The two texts that the state starts with.
pub open spec fn initial_texts() -> Seq<Seq<char>> {
    seq!["This is a string"@, "This is another string"@]
}

/// The text, the vector of texts and the vector of vectors of texts that the
/// state starts with.
pub open spec fn initial_ink_prelude_types() -> InkPreludeTypesModel {
    ("This is a string"@, (initial_texts(), seq![initial_texts()]))
}

/// The store right after construction under `layout`: the seed of every
/// mapping and the encoding of the initial value of every cell, each in the
/// slot of its binding, and nothing else.
pub open spec fn initial_store(layout: Layout) -> Map<Seq<u8>, Seq<u8>> {
    Map::<Seq<u8>, Seq<u8>>::empty().insert(
        slot(layout.mapping_u128_u128_value, u128::encoding(42u128)),
        u128::encoding(23u128),
    ).insert(
        slot(layout.mapping_account_balance_value, AccountId::encoding(filled(1))),
        u128::encoding(42u128),
    ).insert(
        slot(layout.mapping_account_hash_value, AccountId::encoding(filled(1))),
        crate::primitives::Hash::encoding(filled(0xff)),
    ).insert(
        slot(
            layout.mapping_account_account_balance_value,
            <(AccountId, AccountId)>::encoding((filled(1), filled(2))),
        ),
        u128::encoding(23u128),
    ).insert(
        slot(layout.unsigned_integers, Seq::<u8>::empty()),
        UnsignedIntegers::encoding(initial_unsigned_integers().model()),
    ).insert(
        slot(layout.signed_integers, Seq::<u8>::empty()),
        SignedIntegers::encoding(initial_signed_integers().model()),
    ).insert(
        slot(layout.ink_prelude_types, Seq::<u8>::empty()),
        InkPreludeTypes::encoding(initial_ink_prelude_types()),
    ).insert(
        slot(layout.primitive_types, Seq::<u8>::empty()),
        PrimitiveTypes::encoding(initial_primitive_types()),
    ).insert(
        slot(layout.substrate_types, Seq::<u8>::empty()),
        SubstrateTypes::encoding(initial_substrate_types()),
    )
}

/// What can be read from a store right after construction: every cell holds its
/// initial value, and every mapping holds the one entry it is seeded with.
pub open spec fn holds_initial_state(store: Map<Seq<u8>, Seq<u8>>, layout: Layout) -> bool {
    &&& cell_value::<InkPreludeTypes>(store, layout.ink_prelude_types) == Ok::<
        Option<InkPreludeTypesModel>,
        DecodeError,
    >(Some(initial_ink_prelude_types()))
    &&& cell_value::<PrimitiveTypes>(store, layout.primitive_types) == Ok::<
        Option<PrimitiveTypesModel>,
        DecodeError,
    >(Some(initial_primitive_types()))
    &&& cell_value::<SignedIntegers>(store, layout.signed_integers) == Ok::<
        Option<<SignedIntegers as Codec>::Model>,
        DecodeError,
    >(Some(initial_signed_integers().model()))
    &&& cell_value::<SubstrateTypes>(store, layout.substrate_types) == Ok::<
        Option<SubstrateTypesModel>,
        DecodeError,
    >(Some(initial_substrate_types()))
    &&& cell_value::<UnsignedIntegers>(store, layout.unsigned_integers) == Ok::<
        Option<<UnsignedIntegers as Codec>::Model>,
        DecodeError,
    >(Some(initial_unsigned_integers().model()))
    &&& entry_value::<u128, u128>(store, layout.mapping_u128_u128_value, 42u128) == Ok::<
        Option<u128>,
        DecodeError,
    >(Some(23u128))
    &&& entry_value::<AccountId, Balance>(store, layout.mapping_account_balance_value, filled(1))
        == Ok::<Option<u128>, DecodeError>(Some(42u128))
    &&& entry_value::<AccountId, crate::primitives::Hash>(
        store,
        layout.mapping_account_hash_value,
        filled(1),
    ) == Ok::<Option<Seq<u8>>, DecodeError>(Some(filled(0xff)))
    &&& entry_value::<(AccountId, AccountId), Balance>(
        store,
        layout.mapping_account_account_balance_value,
        (filled(1), filled(2)),
    ) == Ok::<Option<u128>, DecodeError>(Some(23u128))
}

/// The mappings of the persisted state.
#[derive(Debug)]
pub struct MappingTypes {
    pub mapping_u128_u128_value: LazyMapping<u128, u128>,
    pub mapping_account_balance_value: LazyMapping<AccountId, Balance>,
    pub mapping_account_hash_value: LazyMapping<AccountId, crate::primitives::Hash>,
    pub mapping_account_account_balance_value: LazyMapping<(AccountId, AccountId), Balance>,
}

impl MappingTypes {
    /// Whether the mappings are bound to the keys that `layout` gives them.
    pub open spec fn bound_by(&self, layout: Layout) -> bool {
        &&& self.mapping_u128_u128_value.base() == layout.mapping_u128_u128_value
        &&& self.mapping_account_balance_value.base() == layout.mapping_account_balance_value
        &&& self.mapping_account_hash_value.base() == layout.mapping_account_hash_value
        &&& self.mapping_account_account_balance_value.base()
            == layout.mapping_account_account_balance_value
    }

    /// The mappings under the keys that `layout` gives them.
    pub fn new(layout: &Layout) -> (r: MappingTypes)
        ensures
            r.bound_by(*layout),
    {
        MappingTypes {
            mapping_u128_u128_value: LazyMapping::new(layout.mapping_u128_u128_value),
            mapping_account_balance_value: LazyMapping::new(layout.mapping_account_balance_value),
            mapping_account_hash_value: LazyMapping::new(layout.mapping_account_hash_value),
            mapping_account_account_balance_value: LazyMapping::new(
                layout.mapping_account_account_balance_value,
            ),
        }
    }
}

/// The unsigned integers that the state starts with.
pub fn unsigned_integer_bounds() -> (r: UnsignedIntegers)
    ensures
        r == initial_unsigned_integers(),
{
    UnsignedIntegers {
        u128_value_max: u128::MAX,
        u128_value_min: u128::MIN,
        u16_value_max: u16::MAX,
        u16_value_min: u16::MIN,
        u32_value_max: u32::MAX,
        u32_value_min: u32::MIN,
        u64_value_max: u64::MAX,
        u64_value_min: u64::MIN,
        u8_value_max: u8::MAX,
        u8_value_min: u8::MIN,
    }
}

/// The signed integers that the state starts with.
pub fn signed_integer_bounds() -> (r: SignedIntegers)
    ensures
        r == initial_signed_integers(),
{
    SignedIntegers {
        i128_value_max: i128::MAX,
        i128_value_min: i128::MIN,
        i16_value_max: i16::MAX,
        i16_value_min: i16::MIN,
        i32_value_max: i32::MAX,
        i32_value_min: i32::MIN,
        i64_value_max: i64::MAX,
        i64_value_min: i64::MIN,
        i8_value_max: i8::MAX,
        i8_value_min: i8::MIN,
    }
}

/// The primitive values that the state starts with.
pub fn primitive_defaults() -> (r: PrimitiveTypes)
    ensures
        r.model() == initial_primitive_types(),
{
    let r = PrimitiveTypes {
        bool_value: true,
        enum_without_values: EnumWithoutValues::A,
        enum_with_values: EnumWithValues::ThreeValues(1, 2, 3),
        array_value: [3, 2, 1],
        tuple_value: (7, 8),
    };
    assert(models(r.array_value@) =~= seq![3u32, 2u32, 1u32]);
    r
}

/// The account with thirty-two bytes `b`.
pub fn account_of(b: u8) -> (r: AccountId)
    ensures
        r.model() == filled(b),
{
    let r = AccountId::from_bytes([b;32]);
    assert(models(r.bytes@) =~= filled(b));
    r
}

/// The hash with thirty-two bytes `b`.
pub fn hash_of(b: u8) -> (r: crate::primitives::Hash)
    ensures
        r.model() == filled(b),
{
    let r = crate::primitives::Hash::from_bytes([b;32]);
    assert(models(r.bytes@) =~= filled(b));
    r
}

/// The chain values that the state starts with.
pub fn substrate_defaults() -> (r: SubstrateTypes)
    ensures
        r.model() == initial_substrate_types(),
{
    SubstrateTypes {
        account_id_value: account_of(0x00),
        balance_value_max: Balance::MAX,
        balance_value_min: Balance::MIN,
        hash_value: hash_of(0x00),
    }
}

/// The two texts that the state starts with.
pub fn text_defaults() -> (r: Vec<String>)
    ensures
        r.model() == initial_texts(),
{
    let mut texts: Vec<String> = Vec::new();
    texts.push("This is a string".to_owned());
    texts.push("This is another string".to_owned());
    assert(models(texts@) =~= initial_texts());
    texts
}

/// The texts that the state starts with.
pub fn ink_prelude_defaults() -> (r: InkPreludeTypes)
    ensures
        r.model() == initial_ink_prelude_types(),
{
    let vec_string_value: Vec<String> = text_defaults();
    let mut vec_vec_string_value: Vec<Vec<String>> = Vec::new();
    vec_vec_string_value.push(text_defaults());
    assert(models(vec_vec_string_value@) =~= seq![initial_texts()]);
    InkPreludeTypes {
        string_value: "This is a string".to_owned(),
        vec_string_value,
        vec_vec_string_value,
    }
}

/// The whole persisted state: a store, five cells and four mappings, each
/// binding under a key of its own.
#[derive(Debug)]
pub struct StorageTypes {
    store: Store,
    ink_prelude_types: StorageCell<InkPreludeTypes>,
    primitive_types: StorageCell<PrimitiveTypes>,
    signed_integers: StorageCell<SignedIntegers>,
    substrate_types: StorageCell<SubstrateTypes>,
    unsigned_integers: StorageCell<UnsignedIntegers>,
    mapping_types: MappingTypes,
}

impl StorageTypes {
    /// The keys of the bindings.
    pub closed spec fn layout(&self) -> Layout {
        Layout {
            ink_prelude_types: self.ink_prelude_types.key(),
            primitive_types: self.primitive_types.key(),
            signed_integers: self.signed_integers.key(),
            substrate_types: self.substrate_types.key(),
            unsigned_integers: self.unsigned_integers.key(),
            mapping_u128_u128_value: self.mapping_types.mapping_u128_u128_value.base(),
            mapping_account_balance_value: self.mapping_types.mapping_account_balance_value.base(),
            mapping_account_hash_value: self.mapping_types.mapping_account_hash_value.base(),
            mapping_account_account_balance_value:
                self.mapping_types.mapping_account_account_balance_value.base(),
        }
    }

    /// What the store holds.
    pub closed spec fn stored(&self) -> Map<Seq<u8>, Seq<u8>> {
        self.store@
    }

    #[verifier::type_invariant]
    spec fn well_formed(&self) -> bool {
        &&& pairwise_distinct(self.layout().keys())
        &&& self.store@ == initial_store(self.layout())
        &&& holds_initial_state(self.store@, self.layout())
    }

    /// Assembles the state under the keys of `layout`: writes the initial
    /// value of every cell and seeds every mapping with one entry. Fails
    /// where two bindings have the same key, and only there.
    pub fn with_layout(layout: Layout) -> (r: Result<StorageTypes, KeyCollisionError>)
        ensures
            r is Ok <==> pairwise_distinct(layout.keys()),
            r matches Ok(state) ==> state.layout() == layout && state.stored() == initial_store(
                layout,
            ) && holds_initial_state(state.stored(), layout),
    {
        if !layout.collision_free() {
            return Err(KeyCollisionError);
        }
        proof {
            layout.lemma_fields_differ();
            assert forall|a: crate::key::StorageKey, b: crate::key::StorageKey, sa: Seq<u8>, sb: Seq<u8>|
                a != b implies #[trigger] slot(a, sa) != #[trigger] slot(b, sb) by {
                lemma_slots_of_distinct_keys(a, b, sa, sb);
            }
        }
        let mut store = Store::new();
        let mapping_types = MappingTypes::new(&layout);
        mapping_types.mapping_u128_u128_value.insert(&mut store, &42, &23);
        mapping_types.mapping_account_balance_value.insert(&mut store, &account_of(0x01), &42);
        mapping_types.mapping_account_hash_value.insert(
            &mut store,
            &account_of(0x01),
            &hash_of(0xff),
        );
        mapping_types.mapping_account_account_balance_value.insert(
            &mut store,
            &(account_of(0x01), account_of(0x02)),
            &23,
        );

        let unsigned_integers = StorageCell::new(layout.unsigned_integers);
        unsigned_integers.write(&mut store, &unsigned_integer_bounds());
        let signed_integers = StorageCell::new(layout.signed_integers);
        signed_integers.write(&mut store, &signed_integer_bounds());
        let ink_prelude_types = StorageCell::new(layout.ink_prelude_types);
        ink_prelude_types.write(&mut store, &ink_prelude_defaults());
        let primitive_types = StorageCell::new(layout.primitive_types);
        primitive_types.write(&mut store, &primitive_defaults());
        let substrate_types = StorageCell::new(layout.substrate_types);
        substrate_types.write(&mut store, &substrate_defaults());

        Ok(
            StorageTypes {
                store,
                ink_prelude_types,
                primitive_types,
                signed_integers,
                substrate_types,
                unsigned_integers,
                mapping_types,
            },
        )
    }

    /// Assembles the state under the keys that the names of its fields
    /// resolve to. Fails where two of those keys are equal, and only there.
    pub fn new() -> (r: Result<StorageTypes, KeyCollisionError>)
        ensures
            r is Ok <==> pairwise_distinct(Layout::declared().keys()),
            r matches Ok(state) ==> state.layout() == Layout::declared() && state.stored()
                == initial_store(Layout::declared()) && holds_initial_state(
                state.stored(),
                Layout::declared(),
            ),
    {
        StorageTypes::with_layout(Layout::resolve())
    }

    /// The keys of the bindings: no two are equal.
    pub fn binding_keys(&self) -> (r: Layout)
        ensures
            r == self.layout(),
            pairwise_distinct(r.keys()),
    {
        proof {
            use_type_invariant(self);
        }
        Layout {
            ink_prelude_types: self.ink_prelude_types.storage_key(),
            primitive_types: self.primitive_types.storage_key(),
            signed_integers: self.signed_integers.storage_key(),
            substrate_types: self.substrate_types.storage_key(),
            unsigned_integers: self.unsigned_integers.storage_key(),
            mapping_u128_u128_value: self.mapping_types.mapping_u128_u128_value.storage_key(),
            mapping_account_balance_value:
                self.mapping_types.mapping_account_balance_value.storage_key(),
            mapping_account_hash_value: self.mapping_types.mapping_account_hash_value.storage_key(),
            mapping_account_account_balance_value:
                self.mapping_types.mapping_account_account_balance_value.storage_key(),
        }
    }

    /// The store, to read entries of the mappings from.
    pub fn store(&self) -> (r: &Store)
        ensures
            r@ == self.stored(),
            r@ == initial_store(self.layout()),
            holds_initial_state(r@, self.layout()),
    {
        proof {
            use_type_invariant(self);
        }
        &self.store
    }

    /// The mappings.
    pub fn mapping_types(&self) -> (r: &MappingTypes)
        ensures
            r.bound_by(self.layout()),
    {
        &self.mapping_types
    }

    /// A copy of the stored unsigned integers.
    pub fn get_unsigned_integers(&self) -> (r: UnsignedIntegers)
        ensures
            r == initial_unsigned_integers(),
            cell_value::<UnsignedIntegers>(self.stored(), self.layout().unsigned_integers) == Ok::<
                Option<<UnsignedIntegers as Codec>::Model>,
                DecodeError,
            >(Some(r.model())),
    {
        proof {
            use_type_invariant(self);
        }
        match self.unsigned_integers.read(&self.store) {
            Ok(Some(v)) => v,
            _ => unreached(),
        }
    }

    /// A copy of the stored signed integers.
    pub fn get_signed_integers(&self) -> (r: SignedIntegers)
        ensures
            r == initial_signed_integers(),
            cell_value::<SignedIntegers>(self.stored(), self.layout().signed_integers) == Ok::<
                Option<<SignedIntegers as Codec>::Model>,
                DecodeError,
            >(Some(r.model())),
    {
        proof {
            use_type_invariant(self);
        }
        match self.signed_integers.read(&self.store) {
            Ok(Some(v)) => v,
            _ => unreached(),
        }
    }

    /// A copy of the stored texts.
    pub fn get_ink_prelude_types(&self) -> (r: InkPreludeTypes)
        ensures
            r.model() == initial_ink_prelude_types(),
            cell_value::<InkPreludeTypes>(self.stored(), self.layout().ink_prelude_types) == Ok::<
                Option<InkPreludeTypesModel>,
                DecodeError,
            >(Some(r.model())),
    {
        proof {
            use_type_invariant(self);
        }
        match self.ink_prelude_types.read(&self.store) {
            Ok(Some(v)) => v,
            _ => unreached(),
        }
    }

    /// A copy of the stored chain values.
    pub fn get_substrate_types(&self) -> (r: SubstrateTypes)
        ensures
            r.model() == initial_substrate_types(),
            cell_value::<SubstrateTypes>(self.stored(), self.layout().substrate_types) == Ok::<
                Option<SubstrateTypesModel>,
                DecodeError,
            >(Some(r.model())),
    {
        proof {
            use_type_invariant(self);
        }
        match self.substrate_types.read(&self.store) {
            Ok(Some(v)) => v,
            _ => unreached(),
        }
    }

    /// A copy of the stored primitive values.
    pub fn get_primitive_types(&self) -> (r: PrimitiveTypes)
        ensures
            r.model() == initial_primitive_types(),
            cell_value::<PrimitiveTypes>(self.stored(), self.layout().primitive_types) == Ok::<
                Option<PrimitiveTypesModel>,
                DecodeError,
            >(Some(r.model())),
    {
        proof {
            use_type_invariant(self);
        }
        match self.primitive_types.read(&self.store) {
            Ok(Some(v)) => v,
            _ => unreached(),
        }
    }

    /// Fails, always, with the one error there is.
    pub fn get_error(&self) -> (r: Result<(), Error>)
        ensures
            r == Err::<(), Error>(Error::ThisIsAnErrorEnum),
    {
        Err(Error::ThisIsAnErrorEnum)
    }
}

} // verus!
