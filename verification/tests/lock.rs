use fog_pack::crypto::error::CryptoError;
use fog_pack::crypto::lock::{Lock, LockType};
use fog_pack::crypto::stream::{FullKey, FullStreamKey};

fn enc_dec_identity(lk: Lock, k: &FullKey) {
    let mut v = Vec::new();
    lk.write(&mut v);
    let (mut lkd, used) = Lock::read(&v[..]).unwrap();
    assert_eq!(used, v.len());
    match lkd.needs().unwrap() {
        LockType::Identity(v) => assert_eq!(v.0, k.get_id()),
        LockType::Stream(_) => panic!("Shouldn't be a stream lock"),
    };
    lkd.decode_identity(k).unwrap();
    assert_eq!(lk, lkd);
}

fn enc_dec_stream(lk: Lock, stream: &FullStreamKey) {
    let mut v = Vec::new();
    lk.write(&mut v);
    let (mut lkd, used) = Lock::read(&v[..]).unwrap();
    assert_eq!(used, v.len());
    match lkd.needs().unwrap() {
        LockType::Identity(_) => panic!("Shouldn't be a identity lock"),
        LockType::Stream(i) => assert_eq!(*i, stream.get_id()),
    };
    lkd.decode_stream(stream).unwrap();
    assert_eq!(lk, lkd);
}

#[test]
fn lock_types() {
    let (k, id) = FullKey::new_pair().unwrap();
    let (lock, stream) = Lock::from_identity(&id).unwrap();
    enc_dec_identity(lock, &k);
    let lock = Lock::from_stream(&stream).unwrap();
    enc_dec_stream(lock, &stream);
}

fn encrypt_decrypt(stream: &FullStreamKey, d: Vec<u8>, ad: Vec<u8>) {
    let mut lk = Lock::from_stream(stream).unwrap();
    let mut written = Vec::new();
    lk.write(&mut written);
    let mut ciphertext: Vec<u8> = Vec::new();
    let mut plaintext: Vec<u8> = Vec::new();
    let expected_len = lk.encrypt_len(d.len());
    lk.encrypt(&d[..], &ad[..], &mut ciphertext).unwrap();
    assert_eq!(ciphertext.len(), expected_len);
    if d.len() > 0 {
        assert_ne!(ciphertext[..d.len()], d[..]);
    }
    let (mut opener, _) = Lock::read(&written[..]).unwrap();
    opener.decode_stream(stream).unwrap();
    opener.decrypt(&ciphertext[..], &ad[..], &mut plaintext).unwrap();
    assert_eq!(d, plaintext);
}

#[test]
fn stream_encrypt() {
    let stream = FullStreamKey::new().unwrap();
    encrypt_decrypt(&stream, vec![], vec![]);
    encrypt_decrypt(&stream, vec![0], vec![]);
    encrypt_decrypt(&stream, vec![], vec![0]);
    encrypt_decrypt(&stream, vec![0, 1, 2], vec![0, 1, 2]);
}

#[test]
fn identity_encrypt() {
    let (key, id) = FullKey::new_pair().unwrap();
    for (d, ad) in [(vec![], vec![]), (vec![0u8], vec![]), (vec![], vec![0u8]), (vec![0, 1, 2], vec![0, 1, 2])] {
        let (mut lock, _) = Lock::from_identity(&id).unwrap();
        let mut written = Vec::new();
        lock.write(&mut written);
        let mut ciphertext: Vec<u8> = Vec::new();
        lock.encrypt(&d[..], &ad[..], &mut ciphertext).unwrap();
        assert_eq!(ciphertext.len(), d.len() + 16);
        let (mut opener, _) = Lock::read(&written[..]).unwrap();
        opener.decode_identity(&key).unwrap();
        let mut plaintext: Vec<u8> = Vec::new();
        opener.decrypt(&ciphertext[..], &ad[..], &mut plaintext).unwrap();
        assert_eq!(d, plaintext);
    }
}

#[test]
fn a_lock_locks_one_message_only() {
    let stream = FullStreamKey::from_secret([7u8; 32]);
    let mut lock = Lock::from_stream(&stream).unwrap();
    let mut out = Vec::new();
    lock.encrypt(b"one", b"", &mut out).unwrap();
    let before = out.clone();
    assert_eq!(lock.encrypt(b"two", b"", &mut out), Err(CryptoError::BadKey));
    assert_eq!(out, before);
}

#[test]
fn a_sealed_lock_neither_encrypts_nor_decrypts() {
    let stream = FullStreamKey::from_secret([7u8; 32]);
    let lock = Lock::from_stream(&stream).unwrap();
    let mut written = Vec::new();
    lock.write(&mut written);
    assert_eq!(written.len(), lock.len());
    assert_eq!(written.len(), 1 + 33 + 24);
    let (mut sealed, _) = Lock::read(&written[..]).unwrap();
    assert!(sealed.get_stream().is_none());
    let mut out = Vec::new();
    assert_eq!(sealed.decrypt(&[0u8; 20], b"", &mut out), Err(CryptoError::BadKey));
    assert_eq!(sealed.encrypt(b"m", b"", &mut out), Err(CryptoError::BadKey));
    // The wrong key is refused, and so is the wrong kind of key.
    let other = FullStreamKey::from_secret([8u8; 32]);
    assert_eq!(sealed.decode_stream(&other), Err(CryptoError::BadKey));
    let key = FullKey::from_seed([1u8; 32]);
    assert_eq!(sealed.decode_identity(&key), Err(CryptoError::BadKey));
    assert!(sealed.needs().is_some());
    sealed.decode_stream(&stream).unwrap();
    assert!(sealed.needs().is_none());
    assert_eq!(sealed.get_stream().unwrap(), stream);
}

#[test]
fn tampering_and_wrong_data_fail_decryption() {
    let stream = FullStreamKey::from_secret([9u8; 32]);
    let mut lock = Lock::from_stream(&stream).unwrap();
    let mut written = Vec::new();
    lock.write(&mut written);
    let mut crypt = Vec::new();
    lock.encrypt(b"message", b"ad", &mut crypt).unwrap();
    let (mut opener, _) = Lock::read(&written[..]).unwrap();
    opener.decode_stream(&stream).unwrap();
    let mut out = Vec::new();
    assert_eq!(opener.decrypt(&crypt[..], b"other", &mut out), Err(CryptoError::DecryptFailed));
    assert_eq!(opener.decrypt(&crypt[..3], b"ad", &mut out), Err(CryptoError::DecryptFailed));
    let mut bad = crypt.clone();
    bad[0] ^= 1;
    assert_eq!(opener.decrypt(&bad[..], b"ad", &mut out), Err(CryptoError::DecryptFailed));
    assert!(out.is_empty());
    opener.decrypt(&crypt[..], b"ad", &mut out).unwrap();
    assert_eq!(out, b"message");
}

#[test]
fn lock_bytes_are_refused_when_cut_or_unknown() {
    assert_eq!(Lock::read(&[]).err(), Some(CryptoError::BadLength));
    assert_eq!(Lock::read(&[1]).err(), Some(CryptoError::BadLength));
    assert_eq!(Lock::read(&[1, 3, 0, 0]).err(), Some(CryptoError::UnsupportedVersion));
    assert_eq!(Lock::read(&[1u8; 40]).err(), Some(CryptoError::BadLength));
    assert_eq!(LockType::read(&[2u8; 33]).unwrap().1, 33);
    assert_eq!(LockType::read(&[1u8; 65]).unwrap().0.len(), 65);
}

#[test]
fn a_tag_says_how_many_bytes_a_lock_takes() {
    assert_eq!(LockType::len_of_tag(1), Some(65));
    assert_eq!(LockType::len_of_tag(2), Some(33));
    assert_eq!(LockType::len_of_tag(0), None);
    assert_eq!(LockType::len_of_tag(3), None);
    assert_eq!(Lock::len_of_tag(1), Some(90));
    assert_eq!(Lock::len_of_tag(2), Some(58));
    assert_eq!(Lock::len_of_tag(9), None);
    let stream = LockType::Stream([3u8; 32]);
    let mut bytes = Vec::new();
    stream.write(&mut bytes);
    assert_eq!(LockType::len_of_tag(bytes[0]), Some(bytes.len()));
    assert_eq!(stream.len(), bytes.len());
    let identity = LockType::Identity(([4u8; 32], [5u8; 32]));
    let mut bytes = Vec::new();
    identity.write(&mut bytes);
    assert_eq!(LockType::len_of_tag(bytes[0]), Some(bytes.len()));
}
