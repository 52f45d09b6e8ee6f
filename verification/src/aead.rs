//! Authenticated encryption with associated data over the Ascon permutation
//! cipher: `encrypt` binds key, nonce, associated data and plaintext into a
//! ciphertext followed by a 16-byte authentication tag; `decrypt` returns the
//! plaintext only after the tag has verified.

use vstd::prelude::*;
use vstd::slice::slice_subrange;
use vstd::slice::slice_to_vec;

verus! {

/// Fixed key length of the Ascon cipher, in bytes.
pub const KEY_LENGTH: usize = 16;

/// Fixed nonce length of the Ascon cipher, in bytes.
pub const NONCE_LENGTH: usize = 16;

/// Fixed length of the authentication tag, in bytes.
pub const TAG_LENGTH: usize = 16;

/// Why a decryption was rejected.
#[derive(Clone, Copy, Debug, PartialEq, Eq, Structural)]
pub enum DecryptFail {
    /// The input is shorter than the tag length, so no tag could be extracted.
    TagLengthError,
    /// A tag was extracted but does not match the ciphertext, nonce,
    /// associated data and key.
    AuthenticationFail,
}

/// The ciphertext that the Ascon cipher produces from a key, a nonce,
/// associated data and a plaintext; as long as the plaintext.
pub uninterp spec fn ascon_cipher(key: Seq<u8>, nonce: Seq<u8>, aad: Seq<u8>, data: Seq<u8>) -> Seq<u8>;

/// The 16-byte tag that the Ascon cipher computes over a key, a nonce,
/// associated data and a ciphertext.
pub uninterp spec fn ascon_tag(key: Seq<u8>, nonce: Seq<u8>, aad: Seq<u8>, cipher: Seq<u8>) -> Seq<u8>;

/// The bytes that the Ascon cipher deciphers from a key, a nonce, associated
/// data and a ciphertext; inverse to `ascon_cipher`.
pub uninterp spec fn ascon_plain(key: Seq<u8>, nonce: Seq<u8>, aad: Seq<u8>, cipher: Seq<u8>) -> Seq<u8>;

/// The full output of encryption: the ciphertext followed by its tag.
pub open spec fn sealed(key: Seq<u8>, nonce: Seq<u8>, aad: Seq<u8>, data: Seq<u8>) -> Seq<u8> {
    ascon_cipher(key, nonce, aad, data) + ascon_tag(
        key,
        nonce,
        aad,
        ascon_cipher(key, nonce, aad, data),
    )
}

/// The leading ciphertext portion of an encryption output.
pub open spec fn cipher_part(data: Seq<u8>) -> Seq<u8> {
    data.subrange(0, data.len() - TAG_LENGTH)
}

/// The trailing tag portion of an encryption output.
pub open spec fn tag_part(data: Seq<u8>) -> Seq<u8> {
    data.subrange(data.len() - TAG_LENGTH, data.len() as int)
}

/// Relies on `ascon::aead_encrypt`: its ciphertext and tag are functions of
/// the key, nonce, associated data and message alone; the ciphertext is as
/// long as the message, the tag 16 bytes long; and deciphering the ciphertext
/// under the same key, nonce and associated data yields the message back.
#[verifier::external_body]
fn encrypt_raw(key: &[u8], nonce: &[u8], data: &[u8], aad: &[u8]) -> (r: (Vec<u8>, Vec<u8>))
    requires
        key@.len() == KEY_LENGTH,
        nonce@.len() == NONCE_LENGTH,
    ensures
        r.0@ == ascon_cipher(key@, nonce@, aad@, data@),
        r.0@.len() == data@.len(),
        r.1@ == ascon_tag(key@, nonce@, aad@, r.0@),
        r.1@.len() == TAG_LENGTH,
        ascon_plain(key@, nonce@, aad@, r.0@) == data@,
{
    let (cipher, tag) = ascon::aead_encrypt(key, nonce, data, aad);
    (cipher, tag.to_vec())
}

/// Relies on `ascon::aead_decrypt`: with a 16-byte tag it succeeds exactly
/// when the tag it recomputes over the key, nonce, associated data and
/// ciphertext equals the given one, and then returns the deciphered bytes, a
/// function of those values alone; otherwise it reports an authentication
/// failure.
#[verifier::external_body]
fn decrypt_raw(key: &[u8], nonce: &[u8], cipher: &[u8], aad: &[u8], tag: &[u8]) -> (r: Result<
    Vec<u8>,
    DecryptFail,
>)
    requires
        key@.len() == KEY_LENGTH,
        nonce@.len() == NONCE_LENGTH,
        tag@.len() == TAG_LENGTH,
    ensures
        (r is Ok) <==> tag@ == ascon_tag(key@, nonce@, aad@, cipher@),
        r is Ok ==> r->Ok_0@ == ascon_plain(key@, nonce@, aad@, cipher@),
        r is Ok ==> r->Ok_0@.len() == cipher@.len(),
        r is Err ==> r->Err_0 == DecryptFail::AuthenticationFail,
{
    match ascon::aead_decrypt(key, nonce, cipher, aad, tag) {
        Ok(data) => Ok(data),
        Err(ascon::DecryptFail::TagLengthError) => Err(DecryptFail::TagLengthError),
        Err(ascon::DecryptFail::AuthenticationFail) => Err(DecryptFail::AuthenticationFail),
    }
}

/// An Ascon cipher instance: owns a copy of the key and the associated data
/// bound into every tag. The key is zeroed when the instance is released.
#[derive(Clone, Debug)]
pub struct Ascon {
    /// key.
    pub key: [u8; KEY_LENGTH],
    /// associated data.
    pub aad: Vec<u8>,
}

impl Ascon {
    /// Constructs an instance owning a copy of `key`, with empty associated
    /// data.
    pub fn new(key: &[u8]) -> (r: Ascon)
        requires
            key@.len() == KEY_LENGTH,
        ensures
            r.key@ == key@,
            r.aad@ == Seq::<u8>::empty(),
    {
        let mut owned: [u8; KEY_LENGTH] = [0u8; KEY_LENGTH];
        let mut i: usize = 0;
        while i < KEY_LENGTH
            invariant
                key@.len() == KEY_LENGTH,
                i <= KEY_LENGTH,
                forall|k: int| 0 <= k < i ==> owned@[k] == key@[k],
            decreases KEY_LENGTH - i,
        {
            owned[i] = key[i];
            i = i + 1;
        }
        proof {
            assert(owned@ =~= key@);
        }
        Ascon { key: owned, aad: Vec::new() }
    }

    /// Overwrites the key with zeroes; called on release, and callable early
    /// by an owner that is done with the instance. The associated data is
    /// not secret and stays as it is.
    pub fn wipe(&mut self)
        ensures
            forall|i: int| 0 <= i < KEY_LENGTH ==> final(self).key@[i] == 0,
            final(self).aad == old(self).aad,
        opens_invariants none
        no_unwind
    {
        let mut i: usize = 0;
        while i < KEY_LENGTH
            invariant
                i <= KEY_LENGTH,
                self.aad == old(self).aad,
                forall|k: int| 0 <= k < i ==> self.key@[k] == 0,
            decreases KEY_LENGTH - i,
        {
            self.key[i] = 0;
            i = i + 1;
        }
    }

    /// The fixed key length in bytes.
    pub fn key_length() -> (r: usize)
        ensures
            r == KEY_LENGTH,
    {
        KEY_LENGTH
    }

    /// The fixed tag length in bytes.
    pub fn tag_length() -> (r: usize)
        ensures
            r == TAG_LENGTH,
    {
        TAG_LENGTH
    }

    /// The fixed nonce length in bytes.
    pub fn nonce_length() -> (r: usize)
        ensures
            r == NONCE_LENGTH,
    {
        NONCE_LENGTH
    }

    /// Replaces the bound associated data wholesale; it affects every later
    /// `encrypt` and `decrypt` on this instance until replaced again.
    pub fn with_aad(&mut self, aad: &[u8])
        ensures
            final(self).key == old(self).key,
            final(self).aad@ == aad@,
    {
        self.aad = slice_to_vec(aad);
    }

    /// Encrypts `data` under this key and `nonce`, binding the associated
    /// data: the result is the ciphertext (as long as `data`) followed by the
    /// 16-byte tag, and deciphering that ciphertext yields `data` back.
    pub fn encrypt(&self, nonce: &[u8], data: &[u8]) -> (r: Vec<u8>)
        requires
            nonce@.len() == NONCE_LENGTH,
        ensures
            r@.len() == data@.len() + TAG_LENGTH,
            r@ == sealed(self.key@, nonce@, self.aad@, data@),
            cipher_part(r@) == ascon_cipher(self.key@, nonce@, self.aad@, data@),
            tag_part(r@) == ascon_tag(self.key@, nonce@, self.aad@, cipher_part(r@)),
            ascon_plain(self.key@, nonce@, self.aad@, cipher_part(r@)) == data@,
    {
        let (cipher, tag) = encrypt_raw(self.key.as_slice(), nonce, data, self.aad.as_slice());
        let ghost cipher0 = cipher@;
        let mut out = cipher;
        let mut i: usize = 0;
        while i < tag.len()
            invariant
                tag@.len() == TAG_LENGTH,
                i <= tag@.len(),
                out@ == cipher0 + tag@.subrange(0, i as int),
            decreases tag@.len() - i,
        {
            out.push(tag[i]);
            i = i + 1;
        }
        proof {
            assert(tag@.subrange(0, tag@.len() as int) =~= tag@);
            assert(out@.subrange(0, cipher0.len() as int) =~= cipher0);
            assert(out@.subrange(cipher0.len() as int, out@.len() as int) =~= tag@);
        }
        out
    }

    /// Decrypts an `encrypt` output: rejects inputs shorter than the tag
    /// length with `TagLengthError`; otherwise splits off the trailing tag,
    /// verifies it over the leading ciphertext, and returns the deciphered
    /// plaintext exactly when the tag matches, `AuthenticationFail` otherwise.
    pub fn decrypt(&self, nonce: &[u8], data: &[u8]) -> (r: Result<Vec<u8>, DecryptFail>)
        requires
            nonce@.len() == NONCE_LENGTH,
        ensures
            data@.len() < TAG_LENGTH ==> r == Err::<Vec<u8>, DecryptFail>(
                DecryptFail::TagLengthError,
            ),
            data@.len() >= TAG_LENGTH ==> ((r is Ok) <==> tag_part(data@) == ascon_tag(
                self.key@,
                nonce@,
                self.aad@,
                cipher_part(data@),
            )),
            data@.len() >= TAG_LENGTH && r is Ok ==> r->Ok_0@ == ascon_plain(
                self.key@,
                nonce@,
                self.aad@,
                cipher_part(data@),
            ),
            data@.len() >= TAG_LENGTH && r is Err ==> r == Err::<Vec<u8>, DecryptFail>(
                DecryptFail::AuthenticationFail,
            ),
    {
        if data.len() < TAG_LENGTH {
            return Err(DecryptFail::TagLengthError);
        }
        let split = data.len() - TAG_LENGTH;
        let cipher = slice_subrange(data, 0, split);
        let tag = slice_subrange(data, split, data.len());
        proof {
            assert(cipher@ =~= cipher_part(data@));
            assert(tag@ =~= tag_part(data@));
        }
        decrypt_raw(self.key.as_slice(), nonce, cipher, self.aad.as_slice(), tag)
    }
}

impl Drop for Ascon {
    /// Erasure on release: the key bytes are overwritten with zero before
    /// the memory is reclaimed, whatever the exit path.
    fn drop(&mut self)
        opens_invariants none
        no_unwind
    {
        self.wipe();
    }
}

/// Round trip: the conditions required here are exactly what `encrypt`
/// ensures of its output, and the conclusions are exactly what makes
/// `decrypt` accept that output and return the original plaintext — so
/// decrypting an encryption, under the same key, nonce and associated data,
/// yields the plaintext back.
pub proof fn lemma_round_trip(
    key: Seq<u8>,
    nonce: Seq<u8>,
    aad: Seq<u8>,
    data: Seq<u8>,
    out: Seq<u8>,
)
    requires
        out == sealed(key, nonce, aad, data),
        ascon_cipher(key, nonce, aad, data).len() == data.len(),
        ascon_tag(key, nonce, aad, ascon_cipher(key, nonce, aad, data)).len() == TAG_LENGTH,
        ascon_plain(key, nonce, aad, ascon_cipher(key, nonce, aad, data)) == data,
    ensures
        out.len() == data.len() + TAG_LENGTH,
        tag_part(out) == ascon_tag(key, nonce, aad, cipher_part(out)),
        ascon_plain(key, nonce, aad, cipher_part(out)) == data,
{
    assert(cipher_part(out) =~= ascon_cipher(key, nonce, aad, data));
    assert(tag_part(out) =~= ascon_tag(key, nonce, aad, ascon_cipher(key, nonce, aad, data)));
}

/// Tamper detection for the tag: an input of the right length that differs
/// from an encryption output only at a position inside the trailing tag has
/// an unchanged ciphertext portion, but a tag portion that no longer matches
/// the tag of that ciphertext — so `decrypt` rejects it with
/// `AuthenticationFail`.
pub proof fn lemma_tag_tamper_rejected(
    key: Seq<u8>,
    nonce: Seq<u8>,
    aad: Seq<u8>,
    data: Seq<u8>,
    tampered: Seq<u8>,
    i: int,
)
    requires
        ascon_cipher(key, nonce, aad, data).len() == data.len(),
        ascon_tag(key, nonce, aad, ascon_cipher(key, nonce, aad, data)).len() == TAG_LENGTH,
        tampered.len() == sealed(key, nonce, aad, data).len(),
        data.len() <= i < tampered.len(),
        tampered[i] != sealed(key, nonce, aad, data)[i],
        forall|j: int| 0 <= j < tampered.len() && j != i ==> tampered[j] == sealed(
            key,
            nonce,
            aad,
            data,
        )[j],
    ensures
        cipher_part(tampered) == ascon_cipher(key, nonce, aad, data),
        tag_part(tampered) != ascon_tag(key, nonce, aad, cipher_part(tampered)),
{
    let whole = sealed(key, nonce, aad, data);
    let cipher = ascon_cipher(key, nonce, aad, data);
    let tag = ascon_tag(key, nonce, aad, cipher);
    assert(cipher_part(tampered) =~= cipher);
    assert(tag_part(tampered)[i - data.len()] != tag[i - data.len()]);
}

} // verus!
