use storage_types::{
    encode, AccountId, Balance, DecodeError, LazyMapping, StorageCell, StorageKey, Store,
    UnsignedIntegers,
};

fn account(b: u8) -> AccountId {
    AccountId::from_bytes([b; 32])
}

#[test]
fn store_keeps_what_it_is_given() {
    let mut store = Store::new();
    assert_eq!(store.get(&[1, 2]), None);
    assert!(!store.contains(&[1, 2]));
    store.set(&[1, 2], vec![9, 9]);
    store.set(&[1], vec![7]);
    store.set(&[], vec![]);
    assert_eq!(store.get(&[1, 2]), Some(&vec![9, 9]));
    assert_eq!(store.get(&[1]), Some(&vec![7]));
    assert_eq!(store.get(&[]), Some(&vec![]));
    assert_eq!(store.get(&[2]), None);
    assert!(store.contains(&[1]));
    store.set(&[1, 2], vec![3]);
    assert_eq!(store.get(&[1, 2]), Some(&vec![3]));
    assert_eq!(store.get(&[1]), Some(&vec![7]));
    store.clear(&[1, 2]);
    assert_eq!(store.get(&[1, 2]), None);
    assert_eq!(store.get(&[1]), Some(&vec![7]));
    assert_eq!(store.get(&[]), Some(&vec![]));
    store.clear(&[1, 2]);
    store.clear(&[5, 5, 5]);
    assert_eq!(store.get(&[1]), Some(&vec![7]));
    store.clear(&[1]);
    store.clear(&[]);
    assert_eq!(store.get(&[1]), None);
    assert_eq!(store.get(&[]), None);
}

#[test]
fn key_of_a_field_is_the_key_ink_computes() {
    assert_eq!(StorageKey::for_field("Contract", "balances"), Some(StorageKey::new(0xf820ff02)));
    assert_eq!(
        StorageKey::for_field("StorageTypes", "signed_integers").map(|k| k.id),
        ink::primitives::KeyComposer::compute_key("StorageTypes", "", "signed_integers").ok()
    );
    assert_ne!(
        StorageKey::for_field("StorageTypes", "signed_integers"),
        StorageKey::for_field("StorageTypes", "unsigned_integers")
    );
    assert_eq!(StorageKey::for_field("", "balances"), None);
    assert_eq!(StorageKey::for_field("Contract", ""), None);
    assert_eq!(StorageKey::for_field("", ""), None);
}

#[test]
fn slot_of_a_key_is_its_four_bytes() {
    assert_eq!(StorageKey::new(0x0102_0304).slot_prefix(), vec![4, 3, 2, 1]);
    assert_eq!(StorageKey::new(0).slot_prefix(), vec![0, 0, 0, 0]);
}

#[test]
fn keys_are_compared_pairwise() {
    let k = |id: u32| StorageKey::new(id);
    assert!(storage_types::key::keys_distinct(&[]));
    assert!(storage_types::key::keys_distinct(&[k(1)]));
    assert!(storage_types::key::keys_distinct(&[k(1), k(2), k(3)]));
    assert!(!storage_types::key::keys_distinct(&[k(1), k(2), k(1)]));
    assert!(!storage_types::key::keys_distinct(&[k(2), k(2)]));
    assert!(!storage_types::key::keys_distinct(&[k(0), k(1), k(2), k(3), k(3)]));
}

#[test]
fn cell_reads_what_was_written() {
    let mut store = Store::new();
    let cell: StorageCell<u32> = StorageCell::new(StorageKey::new(7));
    assert_eq!(cell.storage_key(), StorageKey::new(7));
    assert_eq!(cell.read(&store), Ok(None));
    cell.write(&mut store, &0xdead_beef);
    assert_eq!(cell.read(&store), Ok(Some(0xdead_beef)));
    assert_eq!(store.get(&[7, 0, 0, 0]), Some(&vec![0xef, 0xbe, 0xad, 0xde]));
    cell.write(&mut store, &1);
    assert_eq!(cell.read(&store), Ok(Some(1)));
    cell.write(&mut store, &1);
    assert_eq!(cell.read(&store), Ok(Some(1)));
    assert_eq!(store.get(&[7, 0, 0, 0]), Some(&vec![1, 0, 0, 0]));
}

#[test]
fn cell_reports_bytes_of_another_shape() {
    let mut store = Store::new();
    store.set(&[7, 0, 0, 0], vec![1, 2]);
    let narrow: StorageCell<u16> = StorageCell::new(StorageKey::new(7));
    let wide: StorageCell<u32> = StorageCell::new(StorageKey::new(7));
    let flag: StorageCell<bool> = StorageCell::new(StorageKey::new(7));
    let text: StorageCell<String> = StorageCell::new(StorageKey::new(7));
    assert_eq!(narrow.read(&store), Ok(Some(0x0201)));
    assert_eq!(wide.read(&store), Err(DecodeError::UnexpectedEof));
    assert_eq!(flag.read(&store), Ok(Some(true)));
    assert_eq!(text.read(&store), Err(DecodeError::UnexpectedEof));
    store.set(&[7, 0, 0, 0], vec![4, 0xff]);
    assert_eq!(text.read(&store), Err(DecodeError::InvalidUtf8));
    assert_eq!(flag.read(&store), Err(DecodeError::InvalidBooleanByte));
}

#[test]
fn cells_under_different_keys_do_not_interfere() {
    let mut store = Store::new();
    let a: StorageCell<String> = StorageCell::new(StorageKey::new(1));
    let b: StorageCell<UnsignedIntegers> = StorageCell::new(StorageKey::new(2));
    a.write(&mut store, &String::from("kept"));
    assert_eq!(b.read(&store), Ok(None));
    let bounds = UnsignedIntegers {
        u128_value_max: u128::MAX,
        u128_value_min: 0,
        u16_value_max: u16::MAX,
        u16_value_min: 0,
        u32_value_max: u32::MAX,
        u32_value_min: 0,
        u64_value_max: u64::MAX,
        u64_value_min: 0,
        u8_value_max: u8::MAX,
        u8_value_min: 0,
    };
    b.write(&mut store, &bounds);
    assert_eq!(a.read(&store), Ok(Some(String::from("kept"))));
    assert_eq!(b.read(&store), Ok(Some(bounds)));
}

#[test]
fn mapping_of_u128_holds_42_and_not_7() {
    let mut store = Store::new();
    let mapping: LazyMapping<u128, u128> = LazyMapping::new(StorageKey::new(0x1234));
    mapping.insert(&mut store, &42, &23);
    assert_eq!(mapping.get(&store, &42), Ok(Some(23)));
    assert_eq!(mapping.get(&store, &7), Ok(None));
    assert!(mapping.contains(&store, &42));
    assert!(!mapping.contains(&store, &7));
}

#[test]
fn mapping_slot_is_base_key_then_encoded_key() {
    let mut store = Store::new();
    let mapping: LazyMapping<u16, u8> = LazyMapping::new(StorageKey::new(0x0a0b_0c0d));
    assert_eq!(mapping.storage_key(), StorageKey::new(0x0a0b_0c0d));
    mapping.insert(&mut store, &0x0102, &9);
    assert_eq!(store.get(&[0x0d, 0x0c, 0x0b, 0x0a, 0x02, 0x01]), Some(&vec![9]));
    let mut name = StorageKey::new(0x0a0b_0c0d).slot_prefix();
    name.extend_from_slice(&encode(&0x0102u16));
    assert_eq!(store.get(&name), Some(&vec![9]));
}

#[test]
fn mapping_entries_do_not_interfere() {
    let mut store = Store::new();
    let mapping: LazyMapping<AccountId, Balance> = LazyMapping::new(StorageKey::new(1));
    mapping.insert(&mut store, &account(2), &200);
    mapping.insert(&mut store, &account(1), &100);
    assert_eq!(mapping.get(&store, &account(2)), Ok(Some(200)));
    mapping.insert(&mut store, &account(1), &101);
    assert_eq!(mapping.get(&store, &account(2)), Ok(Some(200)));
    assert_eq!(mapping.get(&store, &account(1)), Ok(Some(101)));
    assert_eq!(mapping.get(&store, &account(3)), Ok(None));
    mapping.remove(&mut store, &account(1));
    assert_eq!(mapping.get(&store, &account(2)), Ok(Some(200)));
    assert_eq!(mapping.get(&store, &account(1)), Ok(None));
}

#[test]
fn mappings_under_different_keys_do_not_interfere() {
    let mut store = Store::new();
    let first: LazyMapping<u128, u128> = LazyMapping::new(StorageKey::new(1));
    let second: LazyMapping<u128, u128> = LazyMapping::new(StorageKey::new(2));
    first.insert(&mut store, &42, &23);
    assert_eq!(second.get(&store, &42), Ok(None));
    second.insert(&mut store, &42, &24);
    assert_eq!(first.get(&store, &42), Ok(Some(23)));
    assert_eq!(second.get(&store, &42), Ok(Some(24)));
    second.remove(&mut store, &42);
    assert_eq!(first.get(&store, &42), Ok(Some(23)));
}

#[test]
fn pair_keys_are_order_sensitive() {
    let mut store = Store::new();
    let mapping: LazyMapping<(AccountId, AccountId), Balance> =
        LazyMapping::new(StorageKey::new(5));
    mapping.insert(&mut store, &(account(2), account(1)), &23);
    assert_eq!(mapping.get(&store, &(account(1), account(2))), Ok(None));
    assert_eq!(mapping.get(&store, &(account(2), account(1))), Ok(Some(23)));
    assert!(!mapping.contains(&store, &(account(1), account(2))));
    mapping.insert(&mut store, &(account(1), account(2)), &24);
    assert_eq!(mapping.get(&store, &(account(2), account(1))), Ok(Some(23)));
    assert_eq!(mapping.get(&store, &(account(1), account(2))), Ok(Some(24)));
}

#[test]
fn remove_of_an_absent_key_changes_nothing() {
    let mut store = Store::new();
    let mapping: LazyMapping<u128, u128> = LazyMapping::new(StorageKey::new(1));
    mapping.remove(&mut store, &42);
    assert_eq!(mapping.get(&store, &42), Ok(None));
    mapping.insert(&mut store, &1, &10);
    mapping.remove(&mut store, &42);
    mapping.remove(&mut store, &42);
    assert_eq!(mapping.get(&store, &1), Ok(Some(10)));
    assert_eq!(mapping.get(&store, &42), Ok(None));
    mapping.remove(&mut store, &1);
    mapping.remove(&mut store, &1);
    assert_eq!(mapping.get(&store, &1), Ok(None));
    assert!(!mapping.contains(&store, &1));
}

#[test]
fn mapping_reports_bytes_of_another_shape() {
    let mut store = Store::new();
    let narrow: LazyMapping<u8, u8> = LazyMapping::new(StorageKey::new(3));
    let wide: LazyMapping<u8, u64> = LazyMapping::new(StorageKey::new(3));
    let flags: LazyMapping<u8, bool> = LazyMapping::new(StorageKey::new(3));
    narrow.insert(&mut store, &1, &5);
    assert_eq!(wide.get(&store, &1), Err(DecodeError::UnexpectedEof));
    assert_eq!(flags.get(&store, &1), Err(DecodeError::InvalidBooleanByte));
    assert!(wide.contains(&store, &1));
    assert_eq!(wide.get(&store, &2), Ok(None));
}

#[test]
fn mapping_of_texts_round_trips() {
    let mut store = Store::new();
    let mapping: LazyMapping<String, Vec<String>> = LazyMapping::new(StorageKey::new(9));
    let value = vec![String::from("a"), String::new(), String::from("\u{e9}")];
    mapping.insert(&mut store, &String::from("key"), &value);
    assert_eq!(mapping.get(&store, &String::from("key")), Ok(Some(value)));
    assert_eq!(mapping.get(&store, &String::from("ke")), Ok(None));
    assert_eq!(mapping.get(&store, &String::from("key ")), Ok(None));
}

#[test]
fn store_lists_each_key_once() {
    let mut store = Store::new();
    assert!(store.keys().is_empty());
    store.set(&[1], vec![1]);
    store.set(&[2], vec![2]);
    store.set(&[1], vec![3]);
    store.set(&[3], vec![]);
    store.clear(&[2]);
    let mut keys = store.keys();
    keys.sort();
    assert_eq!(keys, vec![vec![1u8], vec![3u8]]);
}
