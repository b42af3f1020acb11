use fog_pack::crypto::hash;
use fog_pack::crypto::vault::Vault;
use fog_pack::entry::Entry;
use fog_pack::value::Value;
use fog_pack::MAX_ENTRY_SIZE;

fn test_entry() -> Entry {
    let test = Value::Bin(vec![0u8, 1u8, 2u8]);
    Entry::new(hash::Hash::new_empty(), String::from(""), test).expect("Should be able to make entry")
}

#[test]
fn equality_checks() {
    let test0 = Entry::new(hash::Hash::new_empty(), String::from("a"), Value::Bin(vec![0u8, 1u8, 2u8]))
        .expect("Should be able to make entry");
    let test1 = test_entry();
    let test2 = test_entry();
    assert!(test0 != test1, "Different entries were considered equal");
    assert!(test2 == test1, "Identically-generated entries weren't considered equal");
}

#[test]
fn large_data() {
    let mut large_bin = Vec::new();
    large_bin.resize(MAX_ENTRY_SIZE, 0u8);
    let test = Value::Bin(large_bin.clone());
    let test = Entry::new(hash::Hash::new_empty(), String::from(""), test);
    assert!(test.is_err(), "Should've been too large to encode as a document");

    large_bin.resize(MAX_ENTRY_SIZE - 5, 0u8);
    let test = Value::Bin(large_bin);
    let test = Entry::new(hash::Hash::new_empty(), String::from(""), test);
    assert!(test.is_ok(), "Should've been just small enough to encode as a document");

    let mut test = test.unwrap();
    let mut vault = Vault::new();
    let key = vault.new_key().expect("Should have been able to make a new key");
    assert!(test.sign(&vault, &key).is_err(), "Should've failed because signing put it past the maximum allowed size");
}
