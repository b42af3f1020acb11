use fog_pack::crypto::error::CryptoError;
use fog_pack::crypto::hash;
use fog_pack::crypto::hash::HashState;
use fog_pack::crypto::signature::Signature;
use fog_pack::crypto::vault::Vault;
use fog_pack::crypto::key::Identity;
use fog_pack::crypto::lock::Lockbox;
use fog_pack::decode::{decode, read_value, verify_value};
use fog_pack::element::{read_element, write_element};
use fog_pack::encode::encode;
use fog_pack::error::Error;
use fog_pack::integer::Integer;
use fog_pack::timestamp::Timestamp;
use fog_pack::value::Value;

fn s(text: &str) -> String {
    String::from(text)
}

fn samples() -> Vec<Value> {
    let mut ints: Vec<Value> = [
        0i64, 1, 127, 128, 255, 256, 65535, 65536, 4294967295, 4294967296, i64::MAX, -1, -32, -33, -128, -129,
        -32768, -32769, -2147483648, -2147483649, i64::MIN,
    ]
    .iter()
    .map(|n| Value::Int(Integer::from_i64(*n)))
    .collect();
    ints.push(Value::Int(Integer::from_u64(u64::MAX)));
    let mut all = vec![
        Value::Null,
        Value::Bool(false),
        Value::Bool(true),
        Value::F32(1.5f32.to_bits()),
        Value::F64(f64::NAN.to_bits()),
        Value::Str(s("")),
        Value::Str("é".repeat(16)),
        Value::Str("x".repeat(300)),
        Value::Str("x".repeat(70000)),
        Value::Bin(vec![]),
        Value::Bin(vec![7; 256]),
        Value::Bin(vec![7; 65536]),
        Value::Array(vec![]),
        Value::Array(vec![Value::Null; 16]),
        Value::Array(vec![Value::Bool(true); 65536]),
        Value::obj(vec![]),
        Value::obj((0..20).map(|i| (format!("k{:02}", i), Value::Null)).collect()),
        Value::Hash(hash::Hash::new_empty()),
        Value::Hash(hash::Hash::new(1, b"data").unwrap()),
        Value::Identity(Identity::from_public([3u8; 32])),
        Value::Lockbox(Lockbox::from_vec(vec![1, 2, 3, 4])),
        Value::Lockbox(Lockbox::from_vec(vec![9; 17])),
        Value::Timestamp(Timestamp::from_utc(-1, 999_999_999).unwrap()),
        Value::Timestamp(Timestamp::max_value()),
        Value::obj(vec![
            (s("b"), Value::Array(vec![Value::obj(vec![(s("deep"), Value::Null)])])),
            (s("a"), Value::Int(Integer::from_i64(-7))),
        ]),
    ];
    all.append(&mut ints);
    all
}

#[test]
fn values_round_trip() {
    for value in samples() {
        let bytes = encode(&value).unwrap();
        let (back, used) = read_value(&bytes[..]).unwrap();
        assert_eq!(used, bytes.len());
        assert_eq!(back, value);
        assert!(back.same(&value));
        assert_eq!(verify_value(&bytes[..]), Ok(bytes.len()));
        // What follows the value is left alone.
        let mut longer = bytes.clone();
        longer.extend_from_slice(&[0xc0, 0xff]);
        assert_eq!(read_value(&longer[..]).unwrap().1, bytes.len());
        assert_eq!(decode(&longer[..]).err(), Some(Error::NotCanonical));
        // What was read is written as the bytes it was read from.
        assert_eq!(encode(&back).unwrap(), bytes);
        assert_eq!(encode(&value.deep_clone()).unwrap(), bytes);
    }
}

#[test]
fn every_value_is_written_in_its_shortest_form() {
    let num = |n: i64| encode(&Value::Int(Integer::from_i64(n))).unwrap();
    assert_eq!(num(0), vec![0x00]);
    assert_eq!(num(127), vec![0x7f]);
    assert_eq!(num(128), vec![0xcc, 0x80]);
    assert_eq!(num(256), vec![0xcd, 0x01, 0x00]);
    assert_eq!(num(65536), vec![0xce, 0x00, 0x01, 0x00, 0x00]);
    assert_eq!(num(4294967296), vec![0xcf, 0, 0, 0, 1, 0, 0, 0, 0]);
    assert_eq!(num(-1), vec![0xff]);
    assert_eq!(num(-32), vec![0xe0]);
    assert_eq!(num(-33), vec![0xd0, 0xdf]);
    assert_eq!(num(-129), vec![0xd1, 0xff, 0x7f]);
    assert_eq!(num(-32769), vec![0xd2, 0xff, 0xff, 0x7f, 0xff]);
    assert_eq!(num(i64::MIN), vec![0xd3, 0x80, 0, 0, 0, 0, 0, 0, 0]);
    assert_eq!(encode(&Value::Int(Integer::from_u64(u64::MAX))).unwrap(), vec![0xcf; 1].into_iter().chain(vec![0xff; 8]).collect::<Vec<u8>>());
    assert_eq!(encode(&Value::Null).unwrap(), vec![0xc0]);
    assert_eq!(encode(&Value::Bool(false)).unwrap(), vec![0xc2]);
    assert_eq!(encode(&Value::Bool(true)).unwrap(), vec![0xc3]);
    assert_eq!(encode(&Value::F32(1.0f32.to_bits())).unwrap(), vec![0xca, 0x3f, 0x80, 0, 0]);
    assert_eq!(encode(&Value::F64(1.0f64.to_bits())).unwrap(), vec![0xcb, 0x3f, 0xf0, 0, 0, 0, 0, 0, 0]);
    assert_eq!(encode(&Value::Str(s("ab"))).unwrap(), vec![0xa2, b'a', b'b']);
    assert_eq!(encode(&Value::Bin(vec![1, 2])).unwrap(), vec![0xc4, 2, 1, 2]);
    assert_eq!(encode(&Value::Array(vec![Value::Null])).unwrap(), vec![0x91, 0xc0]);
    assert_eq!(
        encode(&Value::obj(vec![(s("b"), Value::Null), (s("a"), Value::Bool(true))])).unwrap(),
        vec![0x82, 0xa1, b'a', 0xc3, 0xa1, b'b', 0xc0]
    );
    // Extensions: timestamp 1, hash 2, identity 3, lockbox 4.
    let time = encode(&Value::Timestamp(Timestamp::from_utc(1, 2).unwrap())).unwrap();
    assert_eq!(time, vec![0xc7, 12, 1, 0, 0, 0, 0, 0, 0, 0, 1, 0, 0, 0, 2]);
    assert_eq!(encode(&Value::Hash(hash::Hash::new_empty())).unwrap(), vec![0xd4, 2, 0]);
    let hashed = encode(&Value::Hash(hash::Hash::new(1, b"x").unwrap())).unwrap();
    assert_eq!(&hashed[..4], &[0xc7, 65, 2, 1]);
    assert_eq!(hashed.len(), 68);
    let id = encode(&Value::Identity(Identity::from_public([5u8; 32]))).unwrap();
    assert_eq!(&id[..4], &[0xc7, 33, 3, 1]);
    assert_eq!(encode(&Value::Lockbox(Lockbox::from_vec(vec![8, 9]))).unwrap(), vec![0xd5, 4, 8, 9]);
}

#[test]
fn bytes_that_are_not_canonical_are_refused() {
    let refuse = |bytes: &[u8], error: Error| {
        assert_eq!(read_value(bytes).err(), Some(error), "{:x?}", bytes);
        assert_eq!(verify_value(bytes).err(), Some(error), "{:x?}", bytes);
    };
    refuse(&[], Error::Truncated);
    refuse(&[0xc1], Error::NotCanonical);
    refuse(&[0xcc, 0x7f], Error::NotCanonical);
    refuse(&[0xcd, 0x00, 0xff], Error::NotCanonical);
    refuse(&[0xce, 0, 0, 0xff, 0xff], Error::NotCanonical);
    refuse(&[0xcf, 0, 0, 0, 0, 0xff, 0xff, 0xff, 0xff], Error::NotCanonical);
    refuse(&[0xd0, 0x01], Error::NotCanonical);
    refuse(&[0xd0, 0xe0], Error::NotCanonical);
    refuse(&[0xd1, 0xff, 0x80], Error::NotCanonical);
    refuse(&[0xd1, 0x00, 0x01], Error::NotCanonical);
    refuse(&[0xd9, 1, b'a'], Error::NotCanonical);
    refuse(&[0xc5, 0, 1, 7], Error::NotCanonical);
    refuse(&[0xdc, 0, 1, 0xc0], Error::NotCanonical);
    refuse(&[0xde, 0, 0], Error::NotCanonical);
    refuse(&[0xc7, 1, 4, 0], Error::NotCanonical);
    refuse(&[0xa2, b'a'], Error::Truncated);
    refuse(&[0x92, 0xc0], Error::Truncated);
    refuse(&[0xcd, 0x01], Error::Truncated);
    refuse(&[0xa1, 0xff], Error::InvalidUtf8);
    refuse(&[0xd4, 9, 0], Error::UnknownTag);
    refuse(&[0xd4, 2, 1], Error::BadExt);
    refuse(&[0xd4, 1, 0], Error::BadExt);
    refuse(&[0xc7, 12, 1, 0, 0, 0, 0, 0, 0, 0, 0, 0x3b, 0x9a, 0xca, 0x00], Error::BadExt);
    // Keys out of order, twice, or not strings.
    refuse(&[0x82, 0xa1, b'b', 0xc0, 0xa1, b'a', 0xc0], Error::KeyOrder);
    refuse(&[0x82, 0xa1, b'a', 0xc0, 0xa1, b'a', 0xc0], Error::DuplicateKey);
    refuse(&[0x82, 0xa2, b'a', b'a', 0xc0, 0xa1, b'a', 0xc0], Error::KeyOrder);
    refuse(&[0x81, 0x01, 0xc0], Error::KeyNotStr);
    // Nesting is bounded.
    let mut deep = vec![0x91u8; 101];
    deep.push(0xc0);
    refuse(&deep[..], Error::DepthExceeded);
    let mut fits = vec![0x91u8; 100];
    fits.push(0xc0);
    assert!(read_value(&fits[..]).is_ok());
}

#[test]
fn values_that_cannot_be_written_are_refused() {
    let unsorted = Value::Obj(vec![(s("b"), Value::Null), (s("a"), Value::Null)]);
    assert_eq!(encode(&unsorted).err(), Some(Error::Malformed));
    assert!(!unsorted.is_well_formed(100));
    let twice = Value::Obj(vec![(s("a"), Value::Null), (s("a"), Value::Null)]);
    assert_eq!(encode(&twice).err(), Some(Error::Malformed));
    let mut deep = Value::Null;
    for _ in 0..101 {
        deep = Value::Array(vec![deep]);
    }
    assert_eq!(encode(&deep).err(), Some(Error::Malformed));
    assert!(deep.is_well_formed(101));
    assert!(Value::obj(vec![(s("b"), Value::Null), (s("a"), Value::Null)]).is_well_formed(1));
    assert!(!Value::Array(vec![]).is_well_formed(0));
    assert!(!Value::Null.same(&Value::Bool(false)));
}

#[test]
fn hashes_identities_and_signatures_are_written_and_read() {
    let h = hash::Hash::new(1, b"abc").unwrap();
    // BLAKE2b-512 of "abc".
    assert_eq!(&h.digest()[..4], &[0xba, 0x80, 0xa5, 0x3f]);
    assert_eq!(h.version(), 1);
    assert_eq!(hash::Hash::new(2, b"abc").err(), Some(CryptoError::UnsupportedVersion));
    let mut state = HashState::new(1).unwrap();
    state.update(b"a");
    let first = state.get_hash();
    state.update(b"bc");
    assert!(state.get_hash() == h);
    assert!(first == hash::Hash::new(1, b"a").unwrap());
    assert!(state.clone().get_hash() == h);
    assert!(HashState::new(0).is_err());
    let mut bytes = Vec::new();
    h.encode(&mut bytes);
    assert_eq!(bytes.len(), h.len());
    assert_eq!(hash::Hash::decode(&bytes[..]).unwrap(), (h.clone(), 65));
    assert_eq!(hash::Hash::decode(&[0]).unwrap(), (hash::Hash::new_empty(), 1));
    assert_eq!(hash::Hash::decode(&[2]).err(), Some(CryptoError::UnsupportedVersion));
    assert_eq!(hash::Hash::decode(&bytes[..64]).err(), Some(CryptoError::BadLength));
    assert_eq!(hash::Hash::decode(&[]).err(), Some(CryptoError::BadLength));

    let mut vault = Vault::new();
    let key = vault.add_key([1u8; 32]);
    let stranger = Vault::new().add_key([2u8; 32]);
    assert!(vault.has_key(&key));
    assert!(!vault.has_key(&stranger));
    assert_eq!(vault.sign(&h, &stranger).err(), Some(CryptoError::NotInStorage));
    let signature = vault.sign(&h, &key).unwrap();
    assert!(signature.verify(&h));
    assert!(!signature.verify(&first));
    assert!(signature.signed_by() == key.identity());
    let mut bytes = Vec::new();
    signature.encode(&mut bytes);
    assert_eq!(bytes.len(), 97);
    assert_eq!(bytes[0], 1);
    assert_eq!(&bytes[1..33], &key.identity().key()[..]);
    let (back, used) = Signature::decode(&bytes[..]).unwrap();
    assert_eq!(used, 97);
    assert_eq!(back, signature);
    assert_eq!(Signature::decode(&bytes[..96]).err(), Some(CryptoError::BadLength));
    bytes[0] = 3;
    assert_eq!(Signature::decode(&bytes[..]).err(), Some(CryptoError::UnsupportedVersion));
    let mut id = Vec::new();
    key.identity().encode(&mut id);
    assert_eq!(Identity::decode(&id[..]).unwrap().0, key.identity().clone());
    assert_eq!(Identity::decode(&id[..5]).err(), Some(CryptoError::BadLength));
}

#[test]
fn an_object_keeps_the_pair_given_first_and_orders_its_keys() {
    let v = Value::obj(vec![
        (s("b"), Value::Bool(true)),
        (s("a"), Value::Null),
        (s("b"), Value::Bool(false)),
        (s(""), Value::Null),
    ]);
    let expected = Value::Obj(vec![
        (s(""), Value::Null),
        (s("a"), Value::Null),
        (s("b"), Value::Bool(true)),
    ]);
    assert_eq!(v, expected);
    assert_eq!(encode(&v).unwrap(), vec![0x83, 0xa0, 0xc0, 0xa1, b'a', 0xc0, 0xa1, b'b', 0xc3]);
}

#[test]
fn elements_are_written_as_they_were_read() {
    for value in samples() {
        let bytes = encode(&value).unwrap();
        let mut rest = &bytes[..];
        let mut back = Vec::new();
        while !rest.is_empty() {
            let (element, used) = read_element(rest).unwrap();
            write_element(&mut back, &element);
            rest = &rest[used..];
        }
        assert_eq!(back, bytes);
    }
}

#[test]
fn integers_are_told_apart_by_sign_and_size() {
    assert_eq!(Integer::from_u64(u64::MAX).as_u64(), Some(u64::MAX));
    assert_eq!(Integer::from_u64(u64::MAX).as_i64(), None);
    assert_eq!(Integer::from_i64(i64::MIN).as_i64(), Some(i64::MIN));
    assert_eq!(Integer::from_i64(-1).as_u64(), None);
    assert_eq!(Integer::from_i64(7).as_u64(), Some(7));
    assert_eq!(Integer::from_u64(7).as_i64(), Some(7));
    assert!(Integer::from_i64(-1).is_less(&Integer::from_u64(0)));
    assert!(Integer::from_i64(7).same(&Integer::from_u64(7)));
    assert_eq!(Integer::from_u64(1 << 63).get(), 1i128 << 63);
}
