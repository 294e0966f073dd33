//! The crypto engine: password-based key derivation and AES-256-CBC
//! encryption and decryption of a byte blob.
//!
//! The cipher and digest primitives come from their crates and are taken on
//! trust behind the named results below; the derivation pipeline, the hex
//! salt, and the IV-then-ciphertext blob layout are verified here.

use vstd::prelude::*;
use vstd::slice::slice_subrange;
use vstd::string::StringSliceAdditionalSpecFns;
use cbc::cipher::block_padding::Pkcs7;
use cbc::cipher::{BlockDecryptMut, BlockEncryptMut, KeyIvInit};
use sha2::Digest;
use crate::errors::{Error, ErrorKind};

verus! {

/// The SHA-256 digest of a byte sequence, a function of it alone.
pub uninterp spec fn sha256_of(data: Seq<u8>) -> Seq<u8>;

/// The 32-byte PBKDF2-HMAC-SHA256 output for a password, salt, and round
/// count, a function of them alone.
pub uninterp spec fn pbkdf2_sha256_of(password: Seq<u8>, salt: Seq<u8>, rounds: u32) -> Seq<u8>;

/// The AES-256-CBC/PKCS#7 ciphertext of `data` under `key` and `iv`, a
/// function of them alone.
pub uninterp spec fn aes256_cbc_enc(data: Seq<u8>, key: Seq<u8>, iv: Seq<u8>) -> Seq<u8>;

/// What AES-256-CBC/PKCS#7 decryption of `data` under `key` and `iv`
/// yields: the plaintext, or nothing when the padding does not check out.
pub uninterp spec fn aes256_cbc_dec(data: Seq<u8>, key: Seq<u8>, iv: Seq<u8>) -> Option<Seq<u8>>;

/// Relies on `sha2::Sha256::digest`: the 32-byte SHA-256 digest of the
/// input, depending on the input alone.
#[verifier::external_body]
fn sha256(data: &[u8]) -> (r: Vec<u8>)
    ensures
        r@ == sha256_of(data@),
        r@.len() == 32,
{
    sha2::Sha256::digest(data).to_vec()
}

/// Relies on `pbkdf2::pbkdf2_hmac`: the PBKDF2-HMAC-SHA256 bytes for this
/// password, salt, and round count, filled to the requested 32-byte length
/// and depending on the arguments alone.
#[verifier::external_body]
fn pbkdf2_sha256(password: &[u8], salt: &[u8], rounds: u32) -> (r: Vec<u8>)
    requires
        rounds >= 1,
    ensures
        r@ == pbkdf2_sha256_of(password@, salt@, rounds),
        r@.len() == 32,
{
    let mut out = [0u8; 32];
    pbkdf2::pbkdf2_hmac::<sha2::Sha256>(password, salt, rounds, &mut out);
    out.to_vec()
}

/// Relies on `cbc::Encryptor` over `aes::Aes256` with PKCS#7 padding: the
/// ciphertext depends on data, key, and IV alone, and decrypting it under
/// the same key and IV yields the data back.
#[verifier::external_body]
fn aes_cbc_encrypt(data: &[u8], key: &[u8], iv: &[u8]) -> (r: Vec<u8>)
    requires
        key@.len() == 32,
        iv@.len() == 16,
    ensures
        r@ == aes256_cbc_enc(data@, key@, iv@),
        aes256_cbc_dec(r@, key@, iv@) == Some(data@),
{
    match cbc::Encryptor::<aes::Aes256>::new_from_slices(key, iv) {
        Ok(enc) => enc.encrypt_padded_vec_mut::<Pkcs7>(data),
        Err(_) => Vec::new(),
    }
}

/// Relies on `cbc::Decryptor` over `aes::Aes256` with PKCS#7 padding: the
/// plaintext when the padding checks out, nothing otherwise, depending on
/// the arguments alone.
#[verifier::external_body]
fn aes_cbc_decrypt(data: &[u8], key: &[u8], iv: &[u8]) -> (r: Option<Vec<u8>>)
    requires
        key@.len() == 32,
        iv@.len() == 16,
    ensures
        r matches Some(p) ==> aes256_cbc_dec(data@, key@, iv@) == Some(p@),
        r is None ==> aes256_cbc_dec(data@, key@, iv@) is None,
{
    let dec = match cbc::Decryptor::<aes::Aes256>::new_from_slices(key, iv) {
        Ok(d) => d,
        Err(_) => return None,
    };
    match dec.decrypt_padded_vec_mut::<Pkcs7>(data) {
        Ok(p) => Some(p),
        Err(_) => None,
    }
}

/// Relies on `rand::random`: sixteen bytes drawn fresh from the
/// cryptographically secure generator; nothing more is assumed of them.
#[verifier::external_body]
fn random_iv() -> (r: Vec<u8>)
    ensures
        r@.len() == 16,
{
    rand::random::<[u8; 16]>().to_vec()
}

/// The lowercase hex digit for a value below sixteen.
pub open spec fn hex_digit(v: int) -> u8 {
    if v < 10 {
        (48 + v) as u8
    } else {
        (87 + v) as u8
    }
}

/// The lowercase hex rendering of a byte sequence, two digits per byte.
pub open spec fn hex_of(data: Seq<u8>) -> Seq<u8>
    decreases data.len(),
{
    if data.len() == 0 {
        Seq::<u8>::empty()
    } else {
        hex_of(data.drop_last()) + seq![
            hex_digit(data.last() as int / 16),
            hex_digit(data.last() as int % 16),
        ]
    }
}

/// Render bytes as lowercase hex, two digits per byte.
fn to_hex(data: &[u8]) -> (r: Vec<u8>)
    ensures
        r@ == hex_of(data@),
{
    let mut out: Vec<u8> = Vec::new();
    let mut i: usize = 0;
    proof {
        assert(data@.take(0int) =~= Seq::<u8>::empty());
    }
    while i < data.len()
        invariant
            i <= data@.len(),
            out@ == hex_of(data@.take(i as int)),
        decreases data@.len() - i,
    {
        let b = data[i];
        let hi: u8 = b / 16;
        let lo: u8 = b % 16;
        out.push(if hi < 10 {
            48 + hi
        } else {
            87 + hi
        });
        out.push(if lo < 10 {
            48 + lo
        } else {
            87 + lo
        });
        proof {
            assert(data@.take(i + 1int).drop_last() =~= data@.take(i as int));
            assert(data@.take(i + 1int).last() == data@[i as int]);
            assert(out@ =~= hex_of(data@.take(i + 1int)));
        }
        i = i + 1;
    }
    proof {
        assert(data@.take(data@.len() as int) =~= data@);
    }
    out
}

/// The 32-byte key a password derives: PBKDF2-HMAC-SHA256 over the
/// password's bytes, salted with the lowercase hex of their SHA-256 digest,
/// for 2056 rounds.
pub open spec fn key_of(pw: Seq<u8>) -> Seq<u8> {
    pbkdf2_sha256_of(pw, hex_of(sha256_of(pw)), 2056)
}

/// Derive the 32-byte encryption key from a password.  Deterministic: the
/// same password always derives the same key.
pub fn password_to_key(p: &str) -> (r: Vec<u8>)
    ensures
        r@ == key_of(p.spec_bytes()),
        r@.len() == 32,
{
    let pw = p.as_bytes();
    let digest = sha256(pw);
    let salt = to_hex(digest.as_slice());
    pbkdf2_sha256(pw, salt.as_slice(), 2056)
}

/// What decrypting a stored blob under a key yields: the blob is a 16-byte
/// IV followed by ciphertext, or nothing when it is too short or the
/// padding does not check out.
pub open spec fn blob_decrypt(blob: Seq<u8>, key: Seq<u8>) -> Option<Seq<u8>> {
    if blob.len() >= 16 {
        aes256_cbc_dec(blob.skip(16), key, blob.take(16))
    } else {
        None
    }
}

/// Encrypt a blob: a fresh random 16-byte IV, then the ciphertext under it.
///
/// The IV is drawn anew on every call, so two encryptions of the same data
/// need not match; whatever IV was drawn, decrypting the result with the
/// same key yields the data back.
pub fn encrypt(data: &[u8], key: &[u8]) -> (r: Vec<u8>)
    requires
        key@.len() == 32,
    ensures
        r@.len() >= 16,
        blob_decrypt(r@, key@) == Some(data@),
{
    let iv = random_iv();
    let ct = aes_cbc_encrypt(data, key, iv.as_slice());
    let ghost ivv = iv@;
    let ghost ctv = ct@;
    let mut out = iv;
    let mut tail = ct;
    out.append(&mut tail);
    proof {
        assert(out@.take(16) =~= ivv);
        assert(out@.skip(16) =~= ctv);
    }
    out
}

/// Decrypt a stored blob: split off the 16-byte IV and decrypt the rest.
/// A blob that is too short, was made under another key, or was corrupted
/// fails with a `CryptoError`; the cipher cannot tell those apart.
pub fn decrypt(blob: &[u8], key: &[u8]) -> (r: Result<Vec<u8>, Error>)
    requires
        key@.len() == 32,
    ensures
        r matches Ok(p) ==> blob_decrypt(blob@, key@) == Some(p@),
        r is Err ==> blob_decrypt(blob@, key@) is None && r->Err_0.kind == ErrorKind::CryptoError,
{
    if blob.len() < 16 {
        return Err(Error::new(ErrorKind::CryptoError, "invalid encryption key"));
    }
    let iv = slice_subrange(blob, 0, 16);
    let body = slice_subrange(blob, 16, blob.len());
    proof {
        assert(iv@ =~= blob@.take(16));
        assert(body@ =~= blob@.skip(16));
    }
    match aes_cbc_decrypt(body, key, iv) {
        Some(p) => Ok(p),
        None => Err(Error::new(ErrorKind::CryptoError, "invalid encryption key")),
    }
}

/// Key determinism: one password, one key.  Two derivations from the same
/// password yield the same 32 bytes.
pub proof fn lemma_key_deterministic(pw: Seq<u8>, k1: Seq<u8>, k2: Seq<u8>)
    requires
        k1 == key_of(pw),
        k2 == key_of(pw),
    ensures
        k1 == k2,
{
}

/// Every encryption of a blob decrypts back to it: two ciphertexts made
/// from the same data under the same key may differ (each carries a fresh
/// IV), but both yield the data again.
pub proof fn lemma_encrypt_round_trips(data: Seq<u8>, key: Seq<u8>, b1: Seq<u8>, b2: Seq<u8>)
    requires
        blob_decrypt(b1, key) == Some(data),
        blob_decrypt(b2, key) == Some(data),
    ensures
        blob_decrypt(b1, key) == blob_decrypt(b2, key),
        blob_decrypt(b1, key)->Some_0 == data,
{
}

} // verus!
