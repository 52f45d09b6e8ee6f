use sarkara::aead::Ascon;
use sarkara::aead::DecryptFail;

#[test]
fn aead_lengths() {
    assert_eq!(Ascon::key_length(), 16);
    assert_eq!(Ascon::tag_length(), 16);
    assert_eq!(Ascon::nonce_length(), 16);
}

#[test]
fn aead_round_trip_scenario() {
    // key = 16 zero bytes, nonce = 16 bytes of 0x01, aad empty,
    // plaintext = 64 bytes of 0xAA.
    let key = [0u8; 16];
    let nonce = [0x01u8; 16];
    let data = [0xAAu8; 64];

    let cipher = Ascon::new(&key);
    let sealed = cipher.encrypt(&nonce, &data);
    assert_eq!(sealed.len(), 64 + 16);
    assert_ne!(&sealed[..64], &data[..], "ciphertext must differ from plaintext");

    let plain = Ascon::new(&key).decrypt(&nonce, &sealed).unwrap();
    assert_eq!(plain, &data[..]);
}

#[test]
fn aead_corrupt_last_tag_byte_fails() {
    let key = [0u8; 16];
    let nonce = [0x01u8; 16];
    let data = [0xAAu8; 64];

    let cipher = Ascon::new(&key);
    let mut sealed = cipher.encrypt(&nonce, &data);
    let last = sealed.len() - 1;
    sealed[last] ^= 0x01;
    let r = cipher.decrypt(&nonce, &sealed);
    assert_eq!(r, Err(DecryptFail::AuthenticationFail));
}

#[test]
fn aead_flip_any_single_bit_fails() {
    let key = [0x42u8; 16];
    let nonce = [0x24u8; 16];
    let data: Vec<u8> = (0u8..24).collect();

    let cipher = Ascon::new(&key);
    let sealed = cipher.encrypt(&nonce, &data);
    for i in 0..sealed.len() {
        for bit in 0..8 {
            let mut tampered = sealed.clone();
            tampered[i] ^= 1 << bit;
            let r = cipher.decrypt(&nonce, &tampered);
            assert_eq!(r, Err(DecryptFail::AuthenticationFail), "byte {} bit {}", i, bit);
        }
    }
}

#[test]
fn aead_short_input_rejected() {
    let key = [0u8; 16];
    let nonce = [0u8; 16];
    let cipher = Ascon::new(&key);
    for len in 0..16 {
        let short = vec![0u8; len];
        let r = cipher.decrypt(&nonce, &short);
        assert_eq!(r, Err(DecryptFail::TagLengthError), "len {}", len);
    }
}

#[test]
fn aead_empty_plaintext_round_trip() {
    let key = [7u8; 16];
    let nonce = [9u8; 16];
    let cipher = Ascon::new(&key);
    let sealed = cipher.encrypt(&nonce, &[]);
    assert_eq!(sealed.len(), 16);
    let plain = cipher.decrypt(&nonce, &sealed).unwrap();
    assert!(plain.is_empty());
}

#[test]
fn aead_aad_is_bound_into_tag() {
    let key = [1u8; 16];
    let nonce = [2u8; 16];
    let data = [3u8; 20];

    let mut sealing = Ascon::new(&key);
    sealing.with_aad(&[10, 20, 30]);
    let sealed = sealing.encrypt(&nonce, &data);

    // Without the associated data the tag no longer matches.
    let bare = Ascon::new(&key);
    assert_eq!(bare.decrypt(&nonce, &sealed), Err(DecryptFail::AuthenticationFail));

    // With it, decryption succeeds.
    let mut opening = Ascon::new(&key);
    opening.with_aad(&[10, 20, 30]);
    assert_eq!(opening.decrypt(&nonce, &sealed).unwrap(), &data[..]);
}

#[test]
fn aead_aad_is_replaced_not_appended() {
    let key = [1u8; 16];
    let nonce = [2u8; 16];
    let data = [3u8; 20];

    let mut sealing = Ascon::new(&key);
    sealing.with_aad(&[5, 6]);
    let sealed = sealing.encrypt(&nonce, &data);

    // Setting other associated data first and then the right one must
    // behave as if only the right one were bound.
    let mut opening = Ascon::new(&key);
    opening.with_aad(&[99]);
    opening.with_aad(&[5, 6]);
    assert_eq!(opening.decrypt(&nonce, &sealed).unwrap(), &data[..]);
}

#[test]
fn aead_wrong_key_or_nonce_fails() {
    let key = [1u8; 16];
    let nonce = [2u8; 16];
    let data = [3u8; 20];
    let sealed = Ascon::new(&key).encrypt(&nonce, &data);

    let wrong_key = [4u8; 16];
    assert_eq!(
        Ascon::new(&wrong_key).decrypt(&nonce, &sealed),
        Err(DecryptFail::AuthenticationFail)
    );
    let wrong_nonce = [5u8; 16];
    assert_eq!(
        Ascon::new(&key).decrypt(&wrong_nonce, &sealed),
        Err(DecryptFail::AuthenticationFail)
    );
}

#[test]
fn aead_wipe_erases_key() {
    let key = [0x5Au8; 16];
    let mut cipher = Ascon::new(&key);
    cipher.with_aad(&[1, 2, 3]);
    cipher.wipe();
    assert_eq!(cipher.key, [0u8; 16]);
    assert_eq!(cipher.aad, vec![1, 2, 3]);
}
