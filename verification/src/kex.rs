//! Lattice-based key exchange over the NewHope primitive: structured key
//! material (polynomials over a ring of dimension 1024), fixed-length
//! encodings of public keys and reconciliation payloads, derivation of the
//! 32-byte shared secret, and guaranteed erasure of the private key.
//!
//! The lattice sampling and polynomial arithmetic themselves are opaque
//! primitives outside this layer; what stands here is the byte-level data
//! model those primitives exchange, and the private-key lifecycle.

use vstd::prelude::*;
use vstd::slice::slice_subrange;
use vstd::slice::slice_to_vec;

verus! {

/// Ring dimension: coefficients per polynomial.
pub const N: usize = 1024;

/// The ring modulus.
pub const Q: u16 = 12289;

/// Bytes of an encoded polynomial: 14 bits per coefficient.
pub const POLY_BYTES: usize = 1792;

/// Bytes of the public seed carried beside an encoded polynomial.
pub const SEED_BYTES: usize = 32;

/// Bytes of an encoded reconciliation vector: 2 bits per coefficient.
pub const REC_BYTES: usize = 256;

/// Bytes of an encoded public key: polynomial plus seed.
pub const SENDA_BYTES: usize = POLY_BYTES + SEED_BYTES;

/// Bytes of an encoded reconciliation payload: polynomial plus
/// reconciliation vector.
pub const SENDB_BYTES: usize = POLY_BYTES + REC_BYTES;

/// Bytes of the derived shared secret.
pub const SHARED_SECRET_BYTES: usize = 32;

/// A coefficient reduced into the canonical range `0 .. Q`.
pub open spec fn creduced(x: u16) -> u16 {
    (x as int % Q as int) as u16
}

/// Byte `j` of the 14-bit little-endian packing of a polynomial: each group
/// of four coefficients, reduced mod `Q`, fills seven bytes.
pub open spec fn poly_byte(p: Seq<u16>, j: int) -> u8 {
    let g = j / 7;
    let t0 = creduced(p[4 * g]);
    let t1 = creduced(p[4 * g + 1]);
    let t2 = creduced(p[4 * g + 2]);
    let t3 = creduced(p[4 * g + 3]);
    if j % 7 == 0 {
        (t0 & 0xff) as u8
    } else if j % 7 == 1 {
        ((t0 >> 8) | (t1 << 6)) as u8
    } else if j % 7 == 2 {
        (t1 >> 2) as u8
    } else if j % 7 == 3 {
        ((t1 >> 10) | (t2 << 4)) as u8
    } else if j % 7 == 4 {
        (t2 >> 4) as u8
    } else if j % 7 == 5 {
        ((t2 >> 12) | (t3 << 2)) as u8
    } else {
        (t3 >> 6) as u8
    }
}

/// The full 1792-byte encoding of a polynomial.
pub open spec fn poly_bytes_of(p: Seq<u16>) -> Seq<u8> {
    Seq::new(POLY_BYTES as nat, |j: int| poly_byte(p, j))
}

/// Coefficient `i` read back from a 14-bit little-endian packing.
pub open spec fn poly_coeff(a: Seq<u8>, i: int) -> u16 {
    let g = i / 4;
    if i % 4 == 0 {
        (a[7 * g] as u16) | (((a[7 * g + 1] as u16) & 0x3f) << 8)
    } else if i % 4 == 1 {
        ((a[7 * g + 1] as u16) >> 6) | ((a[7 * g + 2] as u16) << 2) | (((a[7 * g + 3] as u16)
            & 0x0f) << 10)
    } else if i % 4 == 2 {
        ((a[7 * g + 3] as u16) >> 4) | ((a[7 * g + 4] as u16) << 4) | (((a[7 * g + 5] as u16)
            & 0x03) << 12)
    } else {
        ((a[7 * g + 5] as u16) >> 2) | ((a[7 * g + 6] as u16) << 6)
    }
}

/// The full polynomial read back from a 1792-byte encoding.
pub open spec fn poly_coeffs_of(a: Seq<u8>) -> Seq<u16> {
    Seq::new(N as nat, |i: int| poly_coeff(a, i))
}

/// Byte `j` of the 2-bit packing of a reconciliation vector: four
/// coefficients per byte, low bits first.
pub open spec fn rec_byte(c: Seq<u16>, j: int) -> u8 {
    (c[4 * j] as u8) | ((c[4 * j + 1] << 2) as u8) | ((c[4 * j + 2] << 4) as u8) | ((c[4 * j + 3]
        << 6) as u8)
}

/// The full 256-byte encoding of a reconciliation vector.
pub open spec fn rec_bytes_of(c: Seq<u16>) -> Seq<u8> {
    Seq::new(REC_BYTES as nat, |j: int| rec_byte(c, j))
}

/// Coefficient `i` read back from a 2-bit packing.
pub open spec fn rec_coeff(r: Seq<u8>, i: int) -> u16 {
    let g = i / 4;
    if i % 4 == 0 {
        (r[g] as u16) & 0x03
    } else if i % 4 == 1 {
        ((r[g] >> 2) as u16) & 0x03
    } else if i % 4 == 2 {
        ((r[g] >> 4) as u16) & 0x03
    } else {
        (r[g] >> 6) as u16
    }
}

/// The full reconciliation vector read back from a 256-byte encoding.
pub open spec fn rec_coeffs_of(r: Seq<u8>) -> Seq<u16> {
    Seq::new(N as nat, |i: int| rec_coeff(r, i))
}

/// The 32-byte SHA3-256 digest of a byte sequence.
pub uninterp spec fn sha3_of(data: Seq<u8>) -> Seq<u8>;

/// Relies on `tiny_keccak::sha3_256`: a 32-byte digest that is a function of
/// the input bytes alone.
#[verifier::external_body]
fn sha3_256_raw(data: &[u8]) -> (r: Vec<u8>)
    ensures
        r@ == sha3_of(data@),
        r@.len() == SHARED_SECRET_BYTES,
{
    tiny_keccak::sha3_256(data).to_vec()
}

/// Packs a polynomial into its 1792-byte encoding, reducing every
/// coefficient into the canonical range first.
pub fn poly_to_bytes(p: &[u16]) -> (r: Vec<u8>)
    requires
        p@.len() == N,
    ensures
        r@.len() == POLY_BYTES,
        r@ == poly_bytes_of(p@),
{
    let mut out: Vec<u8> = Vec::new();
    let mut g: usize = 0;
    while g < N / 4
        invariant
            p@.len() == N,
            g <= N / 4,
            out@.len() == 7 * g,
            forall|j: int| 0 <= j < 7 * g ==> out@[j] == poly_byte(p@, j),
        decreases N / 4 - g,
    {
        let t0 = p[4 * g] % Q;
        let t1 = p[4 * g + 1] % Q;
        let t2 = p[4 * g + 2] % Q;
        let t3 = p[4 * g + 3] % Q;
        out.push(#[verifier::truncate] ((t0 & 0xff) as u8));
        out.push(#[verifier::truncate] (((t0 >> 8) | (t1 << 6)) as u8));
        out.push(#[verifier::truncate] ((t1 >> 2) as u8));
        out.push(#[verifier::truncate] (((t1 >> 10) | (t2 << 4)) as u8));
        out.push(#[verifier::truncate] ((t2 >> 4) as u8));
        out.push(#[verifier::truncate] (((t2 >> 12) | (t3 << 2)) as u8));
        out.push(#[verifier::truncate] ((t3 >> 6) as u8));
        proof {
            let gi = g as int;
            assert forall|j: int| 7 * gi <= j < 7 * gi + 7 implies out@[j] == poly_byte(p@, j) by {
                assert(j / 7 == gi);
            }
        }
        g = g + 1;
    }
    proof {
        assert(out@ =~= poly_bytes_of(p@));
    }
    out
}

/// Unpacks a 1792-byte encoding into its polynomial.
pub fn poly_from_bytes(a: &[u8]) -> (r: Vec<u16>)
    requires
        a@.len() == POLY_BYTES,
    ensures
        r@.len() == N,
        r@ == poly_coeffs_of(a@),
{
    let mut out: Vec<u16> = Vec::new();
    let mut g: usize = 0;
    while g < N / 4
        invariant
            a@.len() == POLY_BYTES,
            g <= N / 4,
            out@.len() == 4 * g,
            forall|i: int| 0 <= i < 4 * g ==> out@[i] == poly_coeff(a@, i),
        decreases N / 4 - g,
    {
        out.push((a[7 * g] as u16) | (((a[7 * g + 1] as u16) & 0x3f) << 8));
        out.push(
            ((a[7 * g + 1] as u16) >> 6) | ((a[7 * g + 2] as u16) << 2) | (((a[7 * g + 3] as u16)
                & 0x0f) << 10),
        );
        out.push(
            ((a[7 * g + 3] as u16) >> 4) | ((a[7 * g + 4] as u16) << 4) | (((a[7 * g + 5] as u16)
                & 0x03) << 12),
        );
        out.push(((a[7 * g + 5] as u16) >> 2) | ((a[7 * g + 6] as u16) << 6));
        proof {
            let gi = g as int;
            assert forall|i: int| 4 * gi <= i < 4 * gi + 4 implies out@[i] == poly_coeff(a@, i) by {
                assert(i / 4 == gi);
            }
        }
        g = g + 1;
    }
    proof {
        assert(out@ =~= poly_coeffs_of(a@));
    }
    out
}

/// Packs a reconciliation vector into its 256-byte encoding; only the two
/// low bits of each coefficient are kept.
pub fn rec_to_bytes(c: &[u16]) -> (r: Vec<u8>)
    requires
        c@.len() == N,
    ensures
        r@.len() == REC_BYTES,
        r@ == rec_bytes_of(c@),
{
    let mut out: Vec<u8> = Vec::new();
    let mut j: usize = 0;
    while j < REC_BYTES
        invariant
            c@.len() == N,
            j <= REC_BYTES,
            out@.len() == j,
            forall|k: int| 0 <= k < j ==> out@[k] == rec_byte(c@, k),
        decreases REC_BYTES - j,
    {
        let b = #[verifier::truncate] ((c[4 * j] as u8)) | #[verifier::truncate] (((c[4 * j + 1]
            << 2) as u8)) | #[verifier::truncate] (((c[4 * j + 2] << 4) as u8))
            | #[verifier::truncate] (((c[4 * j + 3] << 6) as u8));
        out.push(b);
        j = j + 1;
    }
    proof {
        assert(out@ =~= rec_bytes_of(c@));
    }
    out
}

/// Unpacks a 256-byte encoding into its reconciliation vector; every
/// coefficient lies below 4.
pub fn rec_from_bytes(r: &[u8]) -> (out: Vec<u16>)
    requires
        r@.len() == REC_BYTES,
    ensures
        out@.len() == N,
        out@ == rec_coeffs_of(r@),
{
    let mut out: Vec<u16> = Vec::new();
    let mut g: usize = 0;
    while g < REC_BYTES
        invariant
            r@.len() == REC_BYTES,
            g <= REC_BYTES,
            out@.len() == 4 * g,
            forall|i: int| 0 <= i < 4 * g ==> out@[i] == rec_coeff(r@, i),
        decreases REC_BYTES - g,
    {
        out.push((r[g] as u16) & 0x03);
        out.push(((r[g] >> 2) as u16) & 0x03);
        out.push(((r[g] >> 4) as u16) & 0x03);
        out.push((r[g] >> 6) as u16);
        proof {
            let gi = g as int;
            assert forall|i: int| 4 * gi <= i < 4 * gi + 4 implies out@[i] == rec_coeff(r@, i) by {
                assert(i / 4 == gi);
            }
        }
        g = g + 1;
    }
    proof {
        assert(out@ =~= rec_coeffs_of(r@));
    }
    out
}

/// A NewHope private key: one polynomial, the most sensitive object of this
/// layer and the unit of secure erasure. Its coefficients are zeroed when
/// the owning value is released, on every exit path.
pub struct PrivateKey(pub [u16; N]);

impl PrivateKey {
    /// import private key from its fixed-length encoded polynomial form.
    pub fn import(input: &[u8]) -> (r: PrivateKey)
        requires
            input@.len() == POLY_BYTES,
        ensures
            r.0@ == poly_coeffs_of(input@),
    {
        let coeffs = poly_from_bytes(input);
        let mut sk: [u16; N] = [0u16; N];
        let mut i: usize = 0;
        while i < N
            invariant
                coeffs@.len() == N,
                i <= N,
                forall|k: int| 0 <= k < i ==> sk@[k] == coeffs@[k],
            decreases N - i,
        {
            sk[i] = coeffs[i];
            i = i + 1;
        }
        proof {
            assert(sk@ =~= coeffs@);
        }
        PrivateKey(sk)
    }

    /// export private key to its fixed-length encoded polynomial form;
    /// exporting does not erase the key.
    pub fn export(&self) -> (r: Vec<u8>)
        ensures
            r@.len() == POLY_BYTES,
            r@ == poly_bytes_of(self.0@),
    {
        poly_to_bytes(self.0.as_slice())
    }

    /// Overwrites every coefficient with zero; called on release, and
    /// callable early by an owner that is done with the key.
    pub fn wipe(&mut self)
        ensures
            forall|i: int| 0 <= i < N ==> final(self).0@[i] == 0,
        opens_invariants none
        no_unwind
    {
        let mut i: usize = 0;
        while i < N
            invariant
                i <= N,
                forall|k: int| 0 <= k < i ==> self.0@[k] == 0,
            decreases N - i,
        {
            self.0[i] = 0;
            i = i + 1;
        }
    }
}

impl Drop for PrivateKey {
    /// Erasure on release: every byte of the polynomial is overwritten with
    /// zero before the memory is reclaimed, whatever the exit path.
    fn drop(&mut self)
        opens_invariants none
        no_unwind
    {
        self.wipe();
    }
}

/// The NewHope key exchange: fixed-size byte encodings of its public values,
/// and the shared-secret derivation both parties apply to the raw agreed
/// lattice value.
pub struct NewHope;

impl NewHope {
    /// Encodes a public key: the public polynomial followed by the 32-byte
    /// public seed.
    pub fn encode_public_key(pka: &[u16], nonce: &[u8]) -> (r: Vec<u8>)
        requires
            pka@.len() == N,
            nonce@.len() == SEED_BYTES,
        ensures
            r@.len() == SENDA_BYTES,
            r@ == poly_bytes_of(pka@) + nonce@,
    {
        let mut out = poly_to_bytes(pka);
        let ghost head = out@;
        let mut i: usize = 0;
        while i < SEED_BYTES
            invariant
                nonce@.len() == SEED_BYTES,
                i <= SEED_BYTES,
                out@ == head + nonce@.subrange(0, i as int),
            decreases SEED_BYTES - i,
        {
            out.push(nonce[i]);
            i = i + 1;
        }
        proof {
            assert(nonce@.subrange(0, SEED_BYTES as int) =~= nonce@);
        }
        out
    }

    /// Splits an encoded public key back into its polynomial and its seed.
    pub fn decode_public_key(pk: &[u8]) -> (r: (Vec<u16>, Vec<u8>))
        requires
            pk@.len() == SENDA_BYTES,
        ensures
            r.0@.len() == N,
            r.0@ == poly_coeffs_of(pk@.subrange(0, POLY_BYTES as int)),
            r.1@ == pk@.subrange(POLY_BYTES as int, SENDA_BYTES as int),
    {
        let head = slice_subrange(pk, 0, POLY_BYTES);
        let tail = slice_subrange(pk, POLY_BYTES, SENDA_BYTES);
        (poly_from_bytes(head), slice_to_vec(tail))
    }

    /// Encodes a reconciliation payload: the responder's public polynomial
    /// followed by the reconciliation vector.
    pub fn encode_reconciliation(pkb: &[u16], c: &[u16]) -> (r: Vec<u8>)
        requires
            pkb@.len() == N,
            c@.len() == N,
        ensures
            r@.len() == SENDB_BYTES,
            r@ == poly_bytes_of(pkb@) + rec_bytes_of(c@),
    {
        let mut out = poly_to_bytes(pkb);
        let ghost head = out@;
        let rec = rec_to_bytes(c);
        let mut i: usize = 0;
        while i < REC_BYTES
            invariant
                rec@.len() == REC_BYTES,
                rec@ == rec_bytes_of(c@),
                i <= REC_BYTES,
                out@ == head + rec@.subrange(0, i as int),
            decreases REC_BYTES - i,
        {
            out.push(rec[i]);
            i = i + 1;
        }
        proof {
            assert(rec@.subrange(0, REC_BYTES as int) =~= rec@);
        }
        out
    }

    /// Splits an encoded reconciliation payload back into its polynomial and
    /// its reconciliation vector.
    pub fn decode_reconciliation(msg: &[u8]) -> (r: (Vec<u16>, Vec<u16>))
        requires
            msg@.len() == SENDB_BYTES,
        ensures
            r.0@.len() == N,
            r.0@ == poly_coeffs_of(msg@.subrange(0, POLY_BYTES as int)),
            r.1@.len() == N,
            r.1@ == rec_coeffs_of(msg@.subrange(POLY_BYTES as int, SENDB_BYTES as int)),
    {
        let head = slice_subrange(msg, 0, POLY_BYTES);
        let tail = slice_subrange(msg, POLY_BYTES, SENDB_BYTES);
        (poly_from_bytes(head), rec_from_bytes(tail))
    }

    /// Derives the 32-byte shared secret both parties apply to the raw
    /// agreed lattice value: its SHA3-256 digest.
    pub fn derive_shared_secret(raw: &[u8]) -> (r: Vec<u8>)
        ensures
            r@.len() == SHARED_SECRET_BYTES,
            r@ == sha3_of(raw@),
    {
        sha3_256_raw(raw)
    }

    /// The fixed shared-secret length in bytes.
    pub fn shared_secret_length() -> (r: usize)
        ensures
            r == SHARED_SECRET_BYTES,
    {
        SHARED_SECRET_BYTES
    }
}

/// Private-key reconstruction: a polynomial whose coefficients are already
/// reduced below the modulus decodes back to itself from its encoding, so
/// `PrivateKey::import` after `PrivateKey::export` restores the key exactly.
pub proof fn lemma_poly_codec_round_trip(p: Seq<u16>)
    requires
        p.len() == N,
        forall|i: int| 0 <= i < N ==> p[i] < Q,
    ensures
        poly_coeffs_of(poly_bytes_of(p)) == p,
{
    let b = poly_bytes_of(p);
    assert forall|i: int| 0 <= i < N implies poly_coeffs_of(b)[i] == p[i] by {
        let g = i / 4;
        let k = i % 4;
        assert(0 <= g < 256);
        assert(7 * g + 6 < POLY_BYTES);
        let t0 = creduced(p[4 * g]);
        let t1 = creduced(p[4 * g + 1]);
        let t2 = creduced(p[4 * g + 2]);
        let t3 = creduced(p[4 * g + 3]);
        assert(t0 == p[4 * g] && t1 == p[4 * g + 1] && t2 == p[4 * g + 2] && t3 == p[4 * g + 3]);
        let b0 = b[7 * g];
        let b1 = b[7 * g + 1];
        let b2 = b[7 * g + 2];
        let b3 = b[7 * g + 3];
        let b4 = b[7 * g + 4];
        let b5 = b[7 * g + 5];
        let b6 = b[7 * g + 6];
        assert((7 * g + 0) / 7 == g && (7 * g + 0) % 7 == 0);
        assert((7 * g + 1) / 7 == g && (7 * g + 1) % 7 == 1);
        assert((7 * g + 2) / 7 == g && (7 * g + 2) % 7 == 2);
        assert((7 * g + 3) / 7 == g && (7 * g + 3) % 7 == 3);
        assert((7 * g + 4) / 7 == g && (7 * g + 4) % 7 == 4);
        assert((7 * g + 5) / 7 == g && (7 * g + 5) % 7 == 5);
        assert((7 * g + 6) / 7 == g && (7 * g + 6) % 7 == 6);
        assert(b0 == (t0 & 0xff) as u8);
        assert(b1 == ((t0 >> 8) | (t1 << 6)) as u8);
        assert(b2 == (t1 >> 2) as u8);
        assert(b3 == ((t1 >> 10) | (t2 << 4)) as u8);
        assert(b4 == (t2 >> 4) as u8);
        assert(b5 == ((t2 >> 12) | (t3 << 2)) as u8);
        assert(b6 == (t3 >> 6) as u8);
        if k == 0 {
            assert(i == 4 * g);
            assert((b0 as u16) | (((b1 as u16) & 0x3f) << 8) == t0) by (bit_vector)
                requires
                    b0 == (t0 & 0xff) as u8,
                    b1 == ((t0 >> 8) | (t1 << 6)) as u8,
                    t0 < 12289,
            ;
        } else if k == 1 {
            assert(i == 4 * g + 1);
            assert(((b1 as u16) >> 6) | ((b2 as u16) << 2) | (((b3 as u16) & 0x0f) << 10) == t1)
                by (bit_vector)
                requires
                    b1 == ((t0 >> 8) | (t1 << 6)) as u8,
                    b2 == (t1 >> 2) as u8,
                    b3 == ((t1 >> 10) | (t2 << 4)) as u8,
                    t0 < 12289,
                    t1 < 12289,
            ;
        } else if k == 2 {
            assert(i == 4 * g + 2);
            assert(((b3 as u16) >> 4) | ((b4 as u16) << 4) | (((b5 as u16) & 0x03) << 12) == t2)
                by (bit_vector)
                requires
                    b3 == ((t1 >> 10) | (t2 << 4)) as u8,
                    b4 == (t2 >> 4) as u8,
                    b5 == ((t2 >> 12) | (t3 << 2)) as u8,
                    t1 < 12289,
                    t2 < 12289,
            ;
        } else {
            assert(i == 4 * g + 3);
            assert(((b5 as u16) >> 2) | ((b6 as u16) << 6) == t3) by (bit_vector)
                requires
                    b5 == ((t2 >> 12) | (t3 << 2)) as u8,
                    b6 == (t3 >> 6) as u8,
                    t2 < 12289,
                    t3 < 12289,
            ;
        }
    }
    assert(poly_coeffs_of(b) =~= p);
}

/// Reconciliation reconstruction: a vector whose coefficients lie below 4
/// decodes back to itself from its 2-bit encoding, so the payload built by
/// `encode_reconciliation` carries the reconciliation vector exactly.
pub proof fn lemma_rec_codec_round_trip(c: Seq<u16>)
    requires
        c.len() == N,
        forall|i: int| 0 <= i < N ==> c[i] < 4,
    ensures
        rec_coeffs_of(rec_bytes_of(c)) == c,
{
    let r = rec_bytes_of(c);
    assert forall|i: int| 0 <= i < N implies rec_coeffs_of(r)[i] == c[i] by {
        let g = i / 4;
        let k = i % 4;
        assert(0 <= g < 256);
        let c0 = c[4 * g];
        let c1 = c[4 * g + 1];
        let c2 = c[4 * g + 2];
        let c3 = c[4 * g + 3];
        let b = r[g];
        assert(b == (c0 as u8) | ((c1 << 2) as u8) | ((c2 << 4) as u8) | ((c3 << 6) as u8));
        if k == 0 {
            assert(i == 4 * g);
            assert((b as u16) & 0x03 == c0) by (bit_vector)
                requires
                    b == (c0 as u8) | ((c1 << 2) as u8) | ((c2 << 4) as u8) | ((c3 << 6) as u8),
                    c0 < 4,
                    c1 < 4,
                    c2 < 4,
                    c3 < 4,
            ;
        } else if k == 1 {
            assert(i == 4 * g + 1);
            assert(((b >> 2) as u16) & 0x03 == c1) by (bit_vector)
                requires
                    b == (c0 as u8) | ((c1 << 2) as u8) | ((c2 << 4) as u8) | ((c3 << 6) as u8),
                    c0 < 4,
                    c1 < 4,
                    c2 < 4,
                    c3 < 4,
            ;
        } else if k == 2 {
            assert(i == 4 * g + 2);
            assert(((b >> 4) as u16) & 0x03 == c2) by (bit_vector)
                requires
                    b == (c0 as u8) | ((c1 << 2) as u8) | ((c2 << 4) as u8) | ((c3 << 6) as u8),
                    c0 < 4,
                    c1 < 4,
                    c2 < 4,
                    c3 < 4,
            ;
        } else {
            assert(i == 4 * g + 3);
            assert(((b >> 6) as u16) == c3) by (bit_vector)
                requires
                    b == (c0 as u8) | ((c1 << 2) as u8) | ((c2 << 4) as u8) | ((c3 << 6) as u8),
                    c0 < 4,
                    c1 < 4,
                    c2 < 4,
                    c3 < 4,
            ;
        }
    }
    assert(rec_coeffs_of(r) =~= c);
}

} // verus!
