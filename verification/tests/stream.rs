use sarkara::stream::HC256;

#[test]
fn stream_lengths() {
    assert_eq!(HC256::key_length(), 32);
    assert_eq!(HC256::nonce_length(), 32);
}

#[test]
fn stream_involution() {
    let key = [7u8; 32];
    let nonce = [3u8; 32];
    let data: Vec<u8> = (0..100).map(|i| (i * 13 % 251) as u8).collect();

    let cipher = HC256::new(&key);
    let once = cipher.process(&nonce, &data);
    assert_eq!(once.len(), data.len());
    assert_ne!(once, data, "keystream must change the data");
    let twice = cipher.process(&nonce, &once);
    assert_eq!(twice, data);
}

#[test]
fn stream_empty_data() {
    let key = [1u8; 32];
    let nonce = [2u8; 32];
    let cipher = HC256::new(&key);
    assert!(cipher.process(&nonce, &[]).is_empty());
}

#[test]
fn stream_nonce_changes_keystream() {
    let key = [9u8; 32];
    let data = [0u8; 64];
    let cipher = HC256::new(&key);
    let a = cipher.process(&[0u8; 32], &data);
    let b = cipher.process(&[1u8; 32], &data);
    assert_ne!(a, b);
}

#[test]
fn stream_same_inputs_same_output() {
    let key = [5u8; 32];
    let nonce = [6u8; 32];
    let data = [0xF0u8; 48];
    let a = HC256::new(&key).process(&nonce, &data);
    let b = HC256::new(&key).process(&nonce, &data);
    assert_eq!(a, b);
}

#[test]
fn stream_wipe_erases_key() {
    let key = [0x5Au8; 32];
    let nonce = [1u8; 32];
    let data = [2u8; 40];
    let mut cipher = HC256::new(&key);
    cipher.wipe();
    // After the wipe the instance behaves as one keyed with all zeroes.
    let zeroed = HC256::new(&[0u8; 32]);
    assert_eq!(cipher.process(&nonce, &data), zeroed.process(&nonce, &data));
}
