//! The profile store's pure core.
//!
//! Turning a profile into the bytes its file holds and back — rendering,
//! UTF-8, and optionally the encryption pipeline — and the fingerprint rule
//! that detects a concurrent writer at save time.  Reading and writing the
//! file itself, and asking the user anything, stay with the caller.

use vstd::prelude::*;
use vstd::slice::slice_to_vec;
use vstd::string::StringSliceAdditionalSpecFns;
use vstd::utf8::{decode_utf8, encode_utf8, encode_utf8_decode_utf8, encode_utf8_valid_utf8,
    valid_utf8};
use crate::crypt::{blob_decrypt, decrypt, encrypt, key_of, password_to_key};
use crate::doc::{doc_of, parse_profile, serialize_profile, sp_profile, lemma_doc_round_trip};
use crate::errors::{Error, ErrorKind};
use crate::note::{Profile, ProfileV};
use crate::text::str_chars;

verus! {

/// Relies on `String::from_utf8`: it succeeds exactly on valid UTF-8 and
/// yields the characters those bytes encode, as `vstd`'s UTF-8 model
/// states them.
#[verifier::external_body]
fn bytes_to_string(v: Vec<u8>) -> (r: Option<String>)
    ensures
        r is Some <==> valid_utf8(v@),
        r matches Some(s) ==> s@ == decode_utf8(v@),
{
    match String::from_utf8(v) {
        Ok(s) => Some(s),
        Err(_) => None,
    }
}

/// The plaintext behind a profile file's bytes: the bytes themselves, or
/// what they decrypt to under the password's key.
pub open spec fn plain_of(bytes: Seq<u8>, encrypted: bool, key: Seq<char>) -> Option<Seq<u8>> {
    if encrypted {
        blob_decrypt(bytes, key_of(encode_utf8(key)))
    } else {
        Some(bytes)
    }
}

/// The profile a file's bytes decode to, if any: the plaintext must be
/// valid UTF-8 holding a canonical profile document.
pub open spec fn decode_ok(bytes: Seq<u8>, encrypted: bool, key: Seq<char>) -> Option<ProfileV> {
    match plain_of(bytes, encrypted, key) {
        Some(pt) => {
            if valid_utf8(pt) {
                sp_profile(decode_utf8(pt))
            } else {
                None
            }
        },
        None => None,
    }
}

/// Decode a profile file's bytes.
///
/// Succeeds exactly when the bytes decode: decryption under the password's
/// key must check out when `encrypted` is set, and the plaintext must be a
/// UTF-8 profile document.  A failed decryption is a `CryptoError` — a
/// wrong password and corrupted bytes are indistinguishable — while bytes
/// that are no document are an `InvalidFormat` error, which often really
/// means the encrypted flag was wrong.
pub fn decode_profile(bytes: &[u8], encrypted: bool, key: &str) -> (r: Result<Profile, Error>)
    ensures
        r matches Ok(p) ==> decode_ok(bytes@, encrypted, key@) == Some(p@),
        r is Err ==> decode_ok(bytes@, encrypted, key@) is None,
        r is Err ==> r->Err_0.kind == (if encrypted && blob_decrypt(
            bytes@,
            key_of(encode_utf8(key@)),
        ) is None {
            ErrorKind::CryptoError
        } else {
            ErrorKind::InvalidFormat
        }),
{
    let plain: Vec<u8> = if encrypted {
        let k = password_to_key(key);
        match decrypt(bytes, k.as_slice()) {
            Ok(p) => p,
            Err(e) => {
                return Err(e);
            },
        }
    } else {
        slice_to_vec(bytes)
    };
    let doc = match bytes_to_string(plain) {
        Some(s) => s,
        None => {
            return Err(
                Error::new(ErrorKind::InvalidFormat, "invalid encoding; is this profile encrypted?"),
            );
        },
    };
    match parse_profile(doc.as_str()) {
        Some(p) => Ok(p),
        None => Err(Error::new(ErrorKind::InvalidFormat, "invalid profile document")),
    }
}

/// Encode a profile for its file: the canonical document's UTF-8 bytes,
/// encrypted under the password's key when the profile asks for it.  The
/// encrypted form starts with a fresh random IV, so two saves of the same
/// profile need not produce the same bytes; either way the result decodes
/// back to this profile, which `lemma_store_round_trip` states.
pub fn encode_profile(p: &Profile, key: &str) -> (r: Vec<u8>)
    ensures
        !p.encrypted ==> r@ == encode_utf8(doc_of(p@)),
        p.encrypted ==> blob_decrypt(r@, key_of(encode_utf8(key@))) == Some(
            encode_utf8(doc_of(p@)),
        ),
{
    let doc = serialize_profile(p);
    let bytes: Vec<u8> = slice_to_vec(doc.as_str().as_bytes());
    if p.encrypted {
        let k = password_to_key(key);
        encrypt(bytes.as_slice(), k.as_slice())
    } else {
        bytes
    }
}

/// Round trip: what `encode_profile` promises of its result is exactly
/// what makes `decode_profile` give the profile back.  Bytes holding the
/// profile's document — plain, or decrypting to it under the same
/// password — decode to an equal profile.
pub proof fn lemma_store_round_trip(p: ProfileV, key: Seq<char>, bytes: Seq<u8>)
    ensures
        bytes == encode_utf8(doc_of(p)) ==> decode_ok(bytes, false, key) == Some(p),
        blob_decrypt(bytes, key_of(encode_utf8(key))) == Some(encode_utf8(doc_of(p)))
            ==> decode_ok(bytes, true, key) == Some(p),
{
    lemma_doc_round_trip(p);
    encode_utf8_valid_utf8(doc_of(p));
    encode_utf8_decode_utf8(doc_of(p));
}

/// Whether a save at this moment is a conflict: the profile was loaded
/// from an existing file (its fingerprint is not the zero sentinel) and
/// the file's modification time has changed since.
pub open spec fn conflict_spec(fingerprint: u64, current_mtime: u64) -> bool {
    fingerprint != 0 && current_mtime != fingerprint
}

/// Decide whether saving must take the conflict branch instead of writing.
pub fn save_conflict(fingerprint: u64, current_mtime: u64) -> (r: bool)
    ensures
        r == conflict_spec(fingerprint, current_mtime),
{
    fingerprint != 0 && current_mtime != fingerprint
}

/// No false conflict: under the zero sentinel — a brand-new profile with
/// no prior file — no modification time whatsoever is a conflict.
pub proof fn lemma_no_false_conflict(current_mtime: u64)
    ensures
        !conflict_spec(0, current_mtime),
{
}

/// Conflict detection: a profile loaded from an existing file conflicts
/// with exactly the modification times that differ from its fingerprint,
/// even if the contents happen to be unchanged.
pub proof fn lemma_conflict_detected(fingerprint: u64, current_mtime: u64)
    requires
        fingerprint != 0,
    ensures
        conflict_spec(fingerprint, current_mtime) <==> current_mtime != fingerprint,
{
}

/// The position right after the last occurrence of a character, or zero.
pub open spec fn after_last(s: Seq<char>, c: char) -> int
    decreases s.len(),
{
    if s.len() == 0 {
        0
    } else if s.last() == c {
        s.len() as int
    } else {
        after_last(s.drop_last(), c)
    }
}

/// The absolute position right after the last occurrence of `c` within
/// `cs[lo..end]`, or `lo` when it does not occur there.
fn after_last_from(cs: &Vec<char>, lo: usize, end: usize, c: char) -> (r: usize)
    requires
        lo <= end <= cs@.len(),
    ensures
        lo <= r <= end,
        r == lo + after_last(cs@.subrange(lo as int, end as int), c),
    decreases end,
{
    if end == lo {
        proof {
            assert(cs@.subrange(lo as int, lo as int) =~= Seq::<char>::empty());
        }
        return lo;
    }
    if cs[end - 1] == c {
        proof {
            assert(cs@.subrange(lo as int, end as int).last() == cs@[end - 1]);
        }
        end
    } else {
        proof {
            assert(cs@.subrange(lo as int, end as int).last() == cs@[end - 1]);
            assert(cs@.subrange(lo as int, end as int).drop_last() =~= cs@.subrange(
                lo as int,
                end - 1int,
            ));
        }
        after_last_from(cs, lo, end - 1, c)
    }
}

/// The profile name a profile file's path denotes: the last path segment,
/// cut at its last dot unless the dot leads the segment.  An empty
/// segment — a path ending in a separator, or an empty path — is a
/// `ValidationError`.
pub fn path_to_profile_name(path: &str) -> (r: Result<String, Error>)
    ensures
        ({
            let name = path@.skip(after_last(path@, '/'));
            &&& (r is Ok <==> name.len() > 0)
            &&& r matches Ok(n) ==> n@ == ({
                let d = after_last(name, '.') - 1;
                if d <= 0 {
                    name
                } else {
                    name.take(d)
                }
            })
            &&& r is Err ==> r->Err_0.kind == ErrorKind::ValidationError
        }),
{
    let cs: Vec<char> = str_chars(path);
    let ghost pv = path@;
    proof {
        assert(pv.take(pv.len() as int) =~= pv);
        assert(pv.subrange(0int, pv.len() as int) =~= pv);
    }
    let cut = after_last_from(&cs, 0, cs.len(), '/');
    let ghost name = pv.skip(cut as int);
    proof {
        assert(pv.subrange(0int, pv.len() as int) == pv);
        assert(after_last(pv, '/') == cut);
    }
    if cut == cs.len() {
        return Err(Error::new(ErrorKind::ValidationError, "path has no file name"));
    }
    let dot = after_last_from(&cs, cut, cs.len(), '.');
    proof {
        assert(pv.subrange(cut as int, pv.len() as int) =~= name);
        assert(after_last(name, '.') == dot - cut);
    }
    let stop: usize = if dot > cut + 1 {
        dot - 1
    } else {
        cs.len()
    };
    let mut out: Vec<char> = Vec::new();
    let mut i: usize = cut;
    proof {
        assert(pv.subrange(cut as int, cut as int) =~= Seq::<char>::empty());
    }
    while i < stop
        invariant
            cut <= i <= stop,
            stop <= cs@.len(),
            cs@ == pv,
            out@ == pv.subrange(cut as int, i as int),
        decreases stop - i,
    {
        out.push(cs[i]);
        proof {
            assert(out@ =~= pv.subrange(cut as int, i + 1int));
        }
        i = i + 1;
    }
    proof {
        let d = after_last(name, '.') - 1;
        if d <= 0 {
            assert(out@ =~= name);
        } else {
            assert(out@ =~= name.take(d));
        }
    }
    Ok(crate::text::chars_string(&out))
}

} // verus!
