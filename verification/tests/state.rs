use storage_types::{
    AccountId, EnumWithValues, EnumWithoutValues, Error, KeyCollisionError, Layout,
    StorageKey, StorageTypes,
};

fn layout_of(ids: [u32; 9]) -> Layout {
    Layout {
        ink_prelude_types: StorageKey::new(ids[0]),
        primitive_types: StorageKey::new(ids[1]),
        signed_integers: StorageKey::new(ids[2]),
        substrate_types: StorageKey::new(ids[3]),
        unsigned_integers: StorageKey::new(ids[4]),
        mapping_u128_u128_value: StorageKey::new(ids[5]),
        mapping_account_balance_value: StorageKey::new(ids[6]),
        mapping_account_hash_value: StorageKey::new(ids[7]),
        mapping_account_account_balance_value: StorageKey::new(ids[8]),
    }
}

fn keys_of(layout: &Layout) -> Vec<StorageKey> {
    vec![
        layout.ink_prelude_types,
        layout.primitive_types,
        layout.signed_integers,
        layout.substrate_types,
        layout.unsigned_integers,
        layout.mapping_u128_u128_value,
        layout.mapping_account_balance_value,
        layout.mapping_account_hash_value,
        layout.mapping_account_account_balance_value,
    ]
}

#[test]
fn unsigned_integers_are_at_their_bounds() {
    let state = StorageTypes::new().unwrap();
    let u = state.get_unsigned_integers();
    assert_eq!(u.u8_value_min, 0);
    assert_eq!(u.u8_value_max, 255);
    assert_eq!(u.u16_value_min, 0);
    assert_eq!(u.u16_value_max, 65535);
    assert_eq!(u.u32_value_min, 0);
    assert_eq!(u.u32_value_max, 4_294_967_295);
    assert_eq!(u.u64_value_min, 0);
    assert_eq!(u.u64_value_max, 18_446_744_073_709_551_615);
    assert_eq!(u.u128_value_min, 0);
    assert_eq!(u.u128_value_max, 340_282_366_920_938_463_463_374_607_431_768_211_455);
}

#[test]
fn signed_integers_are_at_their_bounds() {
    let state = StorageTypes::new().unwrap();
    let s = state.get_signed_integers();
    assert_eq!(s.i8_value_min, -128);
    assert_eq!(s.i8_value_max, 127);
    assert_eq!(s.i16_value_min, -32768);
    assert_eq!(s.i16_value_max, 32767);
    assert_eq!(s.i32_value_min, i32::MIN);
    assert_eq!(s.i32_value_max, i32::MAX);
    assert_eq!(s.i64_value_min, i64::MIN);
    assert_eq!(s.i64_value_max, i64::MAX);
    assert_eq!(s.i128_value_min, i128::MIN);
    assert_eq!(s.i128_value_max, i128::MAX);
}

#[test]
fn primitive_values_are_the_initial_ones() {
    let state = StorageTypes::new().unwrap();
    let p = state.get_primitive_types();
    assert!(p.bool_value);
    assert_eq!(p.enum_without_values, EnumWithoutValues::A);
    assert_eq!(p.enum_with_values, EnumWithValues::ThreeValues(1, 2, 3));
    assert_eq!(p.array_value, [3, 2, 1]);
    assert_eq!(p.tuple_value, (7, 8));
}

#[test]
fn chain_values_are_the_initial_ones() {
    let state = StorageTypes::new().unwrap();
    let s = state.get_substrate_types();
    assert_eq!(s.account_id_value, AccountId::from_bytes([0; 32]));
    assert_eq!(s.balance_value_max, u128::MAX);
    assert_eq!(s.balance_value_min, 0);
    assert_eq!(s.hash_value, storage_types::primitives::Hash::from_bytes([0; 32]));
}

#[test]
fn texts_are_the_initial_ones() {
    let state = StorageTypes::new().unwrap();
    let t = state.get_ink_prelude_types();
    assert_eq!(t.string_value, "This is a string");
    assert_eq!(t.vec_string_value, vec!["This is a string", "This is another string"]);
    assert_eq!(
        t.vec_vec_string_value,
        vec![vec!["This is a string", "This is another string"]]
    );
}

#[test]
fn getters_return_independent_copies() {
    let state = StorageTypes::new().unwrap();
    let mut t = state.get_ink_prelude_types();
    t.string_value.push_str(" changed");
    t.vec_string_value.clear();
    let mut u = state.get_unsigned_integers();
    u.u8_value_max = 1;
    assert_eq!(state.get_ink_prelude_types().string_value, "This is a string");
    assert_eq!(state.get_ink_prelude_types().vec_string_value.len(), 2);
    assert_eq!(state.get_unsigned_integers().u8_value_max, 255);
}

#[test]
fn get_error_always_fails() {
    let state = StorageTypes::new().unwrap();
    assert_eq!(state.get_error(), Err(Error::ThisIsAnErrorEnum));
    assert_eq!(state.get_error(), Err(Error::ThisIsAnErrorEnum));
    let _ = state.get_unsigned_integers();
    assert_eq!(state.get_error(), Err(Error::ThisIsAnErrorEnum));
    assert!(state.get_error().is_err());
}

#[test]
fn every_mapping_is_seeded_with_one_entry() {
    let state = StorageTypes::new().unwrap();
    let store = state.store();
    let m = state.mapping_types();
    let one = AccountId::from_bytes([0x01; 32]);
    let two = AccountId::from_bytes([0x02; 32]);
    assert_eq!(m.mapping_u128_u128_value.get(store, &42), Ok(Some(23)));
    assert_eq!(m.mapping_u128_u128_value.get(store, &7), Ok(None));
    assert_eq!(m.mapping_account_balance_value.get(store, &one), Ok(Some(42)));
    assert_eq!(m.mapping_account_balance_value.get(store, &two), Ok(None));
    assert_eq!(
        m.mapping_account_hash_value.get(store, &one),
        Ok(Some(storage_types::primitives::Hash::from_bytes([0xff; 32])))
    );
    assert_eq!(m.mapping_account_hash_value.get(store, &two), Ok(None));
    assert_eq!(m.mapping_account_account_balance_value.get(store, &(one, two)), Ok(Some(23)));
    assert_eq!(m.mapping_account_account_balance_value.get(store, &(two, one)), Ok(None));
    assert!(m.mapping_account_account_balance_value.contains(store, &(one, two)));
    assert!(!m.mapping_account_account_balance_value.contains(store, &(one, one)));
}

#[test]
fn declared_bindings_have_nine_distinct_keys() {
    let state = StorageTypes::new().unwrap();
    let layout = state.binding_keys();
    assert_eq!(layout, Layout::resolve());
    assert!(layout.collision_free());
    let keys = keys_of(&layout);
    assert_eq!(keys.len(), 9);
    for i in 0..keys.len() {
        for j in 0..i {
            assert_ne!(keys[i], keys[j]);
        }
    }
    assert_eq!(state.mapping_types().mapping_u128_u128_value.storage_key(), keys[5]);
}

#[test]
fn declared_keys_are_the_keys_ink_computes() {
    let layout = Layout::resolve();
    let k = |s: &str, f: &str| {
        StorageKey::new(ink::primitives::KeyComposer::compute_key(s, "", f).unwrap())
    };
    assert_eq!(layout.ink_prelude_types, k("StorageTypes", "ink_prelude_types"));
    assert_eq!(layout.primitive_types, k("StorageTypes", "primitive_types"));
    assert_eq!(layout.signed_integers, k("StorageTypes", "signed_integers"));
    assert_eq!(layout.substrate_types, k("StorageTypes", "substrate_types"));
    assert_eq!(layout.unsigned_integers, k("StorageTypes", "unsigned_integers"));
    assert_eq!(layout.mapping_u128_u128_value, k("MappingTypes", "mapping_u128_u128_value"));
    assert_eq!(
        layout.mapping_account_balance_value,
        k("MappingTypes", "mapping_account_balance_value")
    );
    assert_eq!(layout.mapping_account_hash_value, k("MappingTypes", "mapping_account_hash_value"));
    assert_eq!(
        layout.mapping_account_account_balance_value,
        k("MappingTypes", "mapping_account_account_balance_value")
    );
}

#[test]
fn colliding_keys_are_caught_at_assembly() {
    assert_eq!(
        StorageTypes::with_layout(layout_of([1, 2, 3, 4, 5, 6, 7, 8, 1])).unwrap_err(),
        KeyCollisionError
    );
    assert!(StorageTypes::with_layout(layout_of([1, 1, 3, 4, 5, 6, 7, 8, 9])).is_err());
    assert!(StorageTypes::with_layout(layout_of([1, 2, 3, 4, 5, 6, 7, 7, 9])).is_err());
    assert!(StorageTypes::with_layout(layout_of([0; 9])).is_err());
    assert!(!layout_of([1, 2, 3, 4, 5, 6, 7, 8, 1]).collision_free());
}

#[test]
fn any_collision_free_layout_assembles() {
    let layout = layout_of([9, 8, 7, 6, 5, 4, 3, 2, 1]);
    assert!(layout.collision_free());
    let state = StorageTypes::with_layout(layout).unwrap();
    assert_eq!(state.binding_keys(), layout);
    assert_eq!(state.get_unsigned_integers().u64_value_max, u64::MAX);
    assert_eq!(state.get_primitive_types().tuple_value, (7, 8));
    assert_eq!(
        state.mapping_types().mapping_u128_u128_value.get(state.store(), &42),
        Ok(Some(23))
    );
    // the cell of the unsigned integers lies under its key, as 62 bytes
    assert_eq!(state.store().get(&[5, 0, 0, 0]).map(|b| b.len()), Some(62));
    assert!(state.store().contains(&[9, 0, 0, 0]));
    assert!(!state.store().contains(&[10, 0, 0, 0]));
}

#[test]
fn construction_fills_nine_slots() {
    let state = StorageTypes::new().unwrap();
    let mut keys = state.store().keys();
    assert_eq!(keys.len(), 9);
    keys.sort();
    keys.dedup();
    assert_eq!(keys.len(), 9);
    let cells = keys.iter().filter(|k| k.len() == 4).count();
    assert_eq!(cells, 5);
    // the entry of the mapping from u128: four bytes of the key, then sixteen of 42
    let mut name = state.binding_keys().mapping_u128_u128_value.slot_prefix();
    name.extend_from_slice(&42u128.to_le_bytes());
    assert_eq!(state.store().get(&name), Some(&23u128.to_le_bytes().to_vec()));
}
