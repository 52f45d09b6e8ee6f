//! Stream encryption over the HC-256 keystream generator: `process` XORs the
//! data with a keystream derived from the key and a per-call nonce, so the
//! same call deciphers what it enciphered. No integrity is provided.

use vstd::prelude::*;

verus! {

/// Fixed key length of the HC-256 cipher, in bytes.
pub const KEY_LENGTH: usize = 32;

/// Fixed nonce length of the HC-256 cipher, in bytes.
pub const NONCE_LENGTH: usize = 32;

/// The byte at position `i` of the keystream that HC-256 derives from a key
/// and a nonce.
pub uninterp spec fn hc256_keystream(key: Seq<u8>, nonce: Seq<u8>, i: int) -> u8;

/// `data` combined byte-wise, by XOR, with the keystream of `key` and
/// `nonce`.
pub open spec fn xored(key: Seq<u8>, nonce: Seq<u8>, data: Seq<u8>) -> Seq<u8> {
    Seq::new(data.len(), |i: int| data[i] ^ hc256_keystream(key, nonce, i))
}

/// Relies on `hc256::HC256::new` and `hc256::HC256::process`: a fresh
/// instance XORs the input with a keystream that is a function of the key and
/// the nonce alone, byte position by byte position.
#[verifier::external_body]
fn process_raw(key: &[u8], nonce: &[u8], data: &[u8]) -> (r: Vec<u8>)
    requires
        key@.len() == KEY_LENGTH,
        nonce@.len() == NONCE_LENGTH,
    ensures
        r@.len() == data@.len(),
        forall|i: int|
            0 <= i < data@.len() ==> r@[i] == (data@[i] ^ hc256_keystream(key@, nonce@, i)),
{
    let mut output = vec![0; data.len()];
    hc256::HC256::new(key, nonce).process(data, &mut output);
    output
}

/// An HC-256 cipher instance owning a copy of its key; the key is zeroed
/// when the instance is released.
#[derive(Clone, Debug)]
pub struct HC256 {
    key: [u8; KEY_LENGTH],
}

impl HC256 {
    /// The key this instance owns.
    pub closed spec fn key_bytes(&self) -> Seq<u8> {
        self.key@
    }

    /// Constructs an instance owning a copy of `key`.
    pub fn new(key: &[u8]) -> (r: HC256)
        requires
            key@.len() == KEY_LENGTH,
        ensures
            r.key_bytes() == key@,
    {
        let mut owned: [u8; KEY_LENGTH] = [0u8; KEY_LENGTH];
        let mut i: usize = 0;
        while i < KEY_LENGTH
            invariant
                key@.len() == KEY_LENGTH,
                i <= KEY_LENGTH,
                forall|k: int| 0 <= k < i ==> owned@[k] == key@[k],
            decreases KEY_LENGTH - i,
        {
            owned[i] = key[i];
            i = i + 1;
        }
        proof {
            assert(owned@ =~= key@);
        }
        HC256 { key: owned }
    }

    /// Overwrites the key with zeroes; called on release, and callable early
    /// by an owner that is done with the instance.
    pub fn wipe(&mut self)
        ensures
            forall|i: int| 0 <= i < KEY_LENGTH ==> final(self).key_bytes()[i] == 0,
        opens_invariants none
        no_unwind
    {
        let mut i: usize = 0;
        while i < KEY_LENGTH
            invariant
                i <= KEY_LENGTH,
                forall|k: int| 0 <= k < i ==> self.key@[k] == 0,
            decreases KEY_LENGTH - i,
        {
            self.key[i] = 0;
            i = i + 1;
        }
    }

    /// The fixed key length in bytes.
    pub fn key_length() -> (r: usize)
        ensures
            r == KEY_LENGTH,
    {
        KEY_LENGTH
    }

    /// The fixed nonce length in bytes.
    pub fn nonce_length() -> (r: usize)
        ensures
            r == NONCE_LENGTH,
    {
        NONCE_LENGTH
    }

    /// XORs `data` with the keystream of this key and `nonce`: the output is
    /// as long as the input, and processing the output again with the same
    /// key and nonce yields the input back.
    pub fn process(&self, nonce: &[u8], data: &[u8]) -> (r: Vec<u8>)
        requires
            nonce@.len() == NONCE_LENGTH,
        ensures
            r@.len() == data@.len(),
            r@ == xored(self.key_bytes(), nonce@, data@),
    {
        let r = process_raw(self.key.as_slice(), nonce, data);
        proof {
            assert(r@ =~= xored(self.key_bytes(), nonce@, data@));
        }
        r
    }
}

impl Drop for HC256 {
    /// Erasure on release: the key bytes are overwritten with zero before
    /// the memory is reclaimed, whatever the exit path.
    fn drop(&mut self)
        opens_invariants none
        no_unwind
    {
        self.wipe();
    }
}

/// Stream cipher involution: XORing with the same keystream twice yields the
/// original data, so `process` applied to its own output, under the same key
/// and nonce, is the identity.
pub proof fn lemma_process_involution(key: Seq<u8>, nonce: Seq<u8>, data: Seq<u8>)
    ensures
        xored(key, nonce, xored(key, nonce, data)) == data,
{
    let once = xored(key, nonce, data);
    let twice = xored(key, nonce, once);
    assert forall|i: int| 0 <= i < data.len() implies twice[i] == data[i] by {
        let s = hc256_keystream(key, nonce, i);
        let d = data[i];
        assert((d ^ s) ^ s == d) by (bit_vector);
    }
    assert(twice =~= data);
}

} // verus!
