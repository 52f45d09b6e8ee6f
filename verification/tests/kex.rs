use sarkara::kex::NewHope;
use sarkara::kex::PrivateKey;
use sarkara::kex::N;
use sarkara::kex::POLY_BYTES;
use sarkara::kex::REC_BYTES;
use sarkara::kex::SENDA_BYTES;
use sarkara::kex::SENDB_BYTES;

#[test]
fn kex_constants() {
    assert_eq!(N, 1024);
    assert_eq!(POLY_BYTES, 1792);
    assert_eq!(SENDA_BYTES, 1792 + 32);
    assert_eq!(SENDB_BYTES, 1792 + 256);
    assert_eq!(NewHope::shared_secret_length(), 32);
}

#[test]
fn private_key_import_export_round_trip() {
    // Every 14-bit field decoded from 0x11-bytes lies below the modulus, so
    // the encoding round-trips exactly.
    let bytes = [0x11u8; POLY_BYTES];
    let sk = PrivateKey::import(&bytes);
    assert_eq!(sk.0[0], 0x1111);
    assert_eq!(sk.0[1], 0x0444);
    assert_eq!(sk.export(), &bytes[..]);
}

#[test]
fn private_key_zero_round_trip() {
    let bytes = [0u8; POLY_BYTES];
    let sk = PrivateKey::import(&bytes);
    assert!(sk.0.iter().all(|&c| c == 0));
    assert_eq!(sk.export(), &bytes[..]);
}

#[test]
fn export_reduces_modulo_q() {
    // A coefficient of exactly the modulus encodes as zero.
    let sk = PrivateKey([12289u16; N]);
    let exported = sk.export();
    assert_eq!(exported, &[0u8; POLY_BYTES][..]);
}

#[test]
fn private_key_wipe_erases_all_coefficients() {
    let bytes = [0x11u8; POLY_BYTES];
    let mut sk = PrivateKey::import(&bytes);
    assert!(sk.0.iter().any(|&c| c != 0));
    sk.wipe();
    assert!(sk.0.iter().all(|&c| c == 0));
    assert_eq!(sk.export(), &[0u8; POLY_BYTES][..]);
}

#[test]
fn public_key_encode_decode_round_trip() {
    let pka: Vec<u16> = (0..N).map(|i| (i * 11 % 12289) as u16).collect();
    let nonce: Vec<u8> = (0..32).map(|i| i as u8).collect();
    let pk = NewHope::encode_public_key(&pka, &nonce);
    assert_eq!(pk.len(), SENDA_BYTES);
    let (poly, seed) = NewHope::decode_public_key(&pk);
    assert_eq!(poly, pka);
    assert_eq!(seed, nonce);
}

#[test]
fn reconciliation_encode_decode_round_trip() {
    let pkb: Vec<u16> = (0..N).map(|i| (i * 7 % 12289) as u16).collect();
    let c: Vec<u16> = (0..N).map(|i| (i % 4) as u16).collect();
    let msg = NewHope::encode_reconciliation(&pkb, &c);
    assert_eq!(msg.len(), SENDB_BYTES);
    let (poly, rec) = NewHope::decode_reconciliation(&msg);
    assert_eq!(poly, pkb);
    assert_eq!(rec, c);
}

#[test]
fn reconciliation_packing_is_two_bits_low_first() {
    // Four coefficients per byte, low bits first: [1, 2, 3, 0] packs to
    // 1 | 2 << 2 | 3 << 4 = 0x39.
    let pkb = vec![0u16; N];
    let mut c = vec![0u16; N];
    c[0] = 1;
    c[1] = 2;
    c[2] = 3;
    let msg = NewHope::encode_reconciliation(&pkb, &c);
    assert_eq!(msg[POLY_BYTES], 0x39);
    assert!(msg[POLY_BYTES + 1..].iter().all(|&b| b == 0));
}

#[test]
fn reconciliation_bytes_have_fixed_length() {
    assert_eq!(REC_BYTES, 256);
}

#[test]
fn shared_secret_is_sha3_256() {
    // SHA3-256 of the empty input.
    let expected = [
        0xa7, 0xff, 0xc6, 0xf8, 0xbf, 0x1e, 0xd7, 0x66, 0x51, 0xc1, 0x47, 0x56, 0xa0, 0x61, 0xd6,
        0x62, 0xf5, 0x80, 0xff, 0x4d, 0xe4, 0x3b, 0x49, 0xfa, 0x82, 0xd8, 0x0a, 0x4b, 0x80, 0xf8,
        0x43, 0x4a,
    ];
    assert_eq!(NewHope::derive_shared_secret(&[]), &expected[..]);
}

#[test]
fn shared_secret_depends_on_input() {
    let a = NewHope::derive_shared_secret(&[1, 2, 3]);
    let b = NewHope::derive_shared_secret(&[1, 2, 4]);
    let c = NewHope::derive_shared_secret(&[1, 2, 3]);
    assert_eq!(a.len(), 32);
    assert_ne!(a, b);
    assert_eq!(a, c);
}
