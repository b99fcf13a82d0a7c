//! Credential hashing: a deterministic, salted, one-way derivation of a
//! stored digest from an account's identity and secret, and a fail-closed
//! verifier. The identity (username) is the salt, so equal secrets under
//! different identities never collide in storage.

use vstd::prelude::*;
use vstd::utf8::encode_utf8;
use vstd::string::StringSliceAdditionalSpecFns;
use crate::b64::{b64_chars, lemma_b64_injective};
use std::num::NonZeroU32;

verus! {

/// Iteration count of the key derivation: high enough to resist brute
/// force, low enough to bound request latency.
pub const HASH_ROUNDS: u32 = 1000;

/// Byte length of a derived key (the SHA-256 output length).
pub const CREDENTIAL_LEN: usize = 32;

/// Byte-length bound under which the underlying digest accepts its input
/// outright (far beyond any real username or secret).
pub const MAX_SECRET_BYTES: u64 = 0x1000_0000_0000_0000;

/// The PBKDF2-HMAC-SHA256 derivation at `HASH_ROUNDS` rounds, producing
/// `n` bytes of key material: a function of salt and secret alone.
pub uninterp spec fn pbkdf2_sha256(salt: Seq<u8>, secret: Seq<u8>, n: nat) -> Seq<u8>;

/// Standard base64 (with padding) of a byte string.
pub open spec fn b64_of(bytes: Seq<u8>) -> Seq<char> {
    b64_chars(bytes)
}

/// The digest stored for an account: base64 of the 32-byte derived key.
pub open spec fn hash_spec(salt: Seq<char>, secret: Seq<char>) -> Seq<char> {
    b64_of(pbkdf2_sha256(encode_utf8(salt), encode_utf8(secret), CREDENTIAL_LEN as nat))
}

/// When verification succeeds: the stored text is the canonical base64 of
/// a derived key of some positive length for (salt, attempted secret).
pub open spec fn verify_spec(salt: Seq<char>, stored: Seq<char>, attempted: Seq<char>) -> bool {
    exists|n: nat|
        0 < n && stored == b64_of(pbkdf2_sha256(encode_utf8(salt), encode_utf8(attempted), n))
}

/// Relies on ring::pbkdf2::derive with PBKDF2_HMAC_SHA256, 1000 rounds and
/// a 32-byte output: fills the output with the PBKDF2 derived key, a
/// deterministic function of salt and secret; panics only on inputs past
/// the digest's astronomical length limit, which the requires excludes.
#[verifier::external_body]
fn pbkdf2_derive(salt: &str, secret: &str) -> (r: Vec<u8>)
    requires
        salt.spec_bytes().len() < MAX_SECRET_BYTES,
        secret.spec_bytes().len() < MAX_SECRET_BYTES,
    ensures
        r@ == pbkdf2_sha256(salt.spec_bytes(), secret.spec_bytes(), CREDENTIAL_LEN as nat),
        r@.len() == CREDENTIAL_LEN,
{
    let mut out = [0u8; CREDENTIAL_LEN];
    let rounds = NonZeroU32::new(HASH_ROUNDS).unwrap();
    ring::pbkdf2::derive(
        ring::pbkdf2::PBKDF2_HMAC_SHA256,
        rounds,
        salt.as_bytes(),
        secret.as_bytes(),
        &mut out,
    );
    out.to_vec()
}

/// Relies on ring::pbkdf2::verify with PBKDF2_HMAC_SHA256 and 1000 rounds:
/// succeeds exactly when the stored bytes are non-empty and equal the
/// derived key of their own length for (salt, attempted secret); the
/// comparison is constant-time. Derivations of different lengths differ in
/// length, so this is equivalent to matching the derivation at some
/// positive length.
#[verifier::external_body]
fn pbkdf2_check(salt: &str, attempted: &str, stored: &[u8]) -> (r: bool)
    requires
        salt.spec_bytes().len() < MAX_SECRET_BYTES,
        attempted.spec_bytes().len() < MAX_SECRET_BYTES,
    ensures
        r == (exists|n: nat|
            0 < n && stored@ == pbkdf2_sha256(salt.spec_bytes(), attempted.spec_bytes(), n)),
{
    let rounds = NonZeroU32::new(HASH_ROUNDS).unwrap();
    ring::pbkdf2::verify(
        ring::pbkdf2::PBKDF2_HMAC_SHA256,
        rounds,
        salt.as_bytes(),
        attempted.as_bytes(),
        stored,
    )
    .is_ok()
}

/// Relies on base64::encode: produces exactly the standard, padded
/// base64 text of the bytes (the `b64_chars` form: RFC 4648 alphabet,
/// `=` padding).
#[verifier::external_body]
fn b64_encode(bytes: &[u8]) -> (r: String)
    ensures
        r@ == b64_of(bytes@),
{
    base64::encode(bytes)
}

/// Relies on base64::decode: any canonical base64 text (the image of
/// base64::encode) decodes back to the bytes it encodes.
#[verifier::external_body]
fn b64_decode(s: &str) -> (r: Option<Vec<u8>>)
    ensures
        forall|b: Seq<u8>| s@ == b64_of(b) ==> r is Some && r.unwrap()@ == b,
{
    base64::decode(s).ok()
}

/// Derives the digest stored for an account with identity `salt` and
/// secret `s`.
pub fn hash(salt: String, s: String) -> (r: String)
    requires
        encode_utf8(salt@).len() < MAX_SECRET_BYTES,
        encode_utf8(s@).len() < MAX_SECRET_BYTES,
    ensures
        r@ == hash_spec(salt@, s@),
{
    let key = pbkdf2_derive(salt.as_str(), s.as_str());
    b64_encode(key.as_slice())
}

/// Recomputes and compares, in constant time. Fails closed: a stored
/// digest that is not canonical base64 verifies as false, never as an
/// error distinguishable from a wrong secret.
pub fn verify(salt: String, password: String, attempted_password: String) -> (r: bool)
    requires
        encode_utf8(salt@).len() < MAX_SECRET_BYTES,
        encode_utf8(attempted_password@).len() < MAX_SECRET_BYTES,
    ensures
        r == verify_spec(salt@, password@, attempted_password@),
{
    let ghost salt_b = encode_utf8(salt@);
    let ghost att_b = encode_utf8(attempted_password@);
    let ss = salt.as_str();
    let ats = attempted_password.as_str();
    let ps = password.as_str();
    proof {
        assert(ss.spec_bytes() == salt_b);
        assert(ats.spec_bytes() == att_b);
        assert(verify_spec(salt@, password@, attempted_password@) == (exists|n: nat|
            0 < n && password@ == b64_of(pbkdf2_sha256(salt_b, att_b, n))));
    }
    let dec = b64_decode(ps);
    match dec {
        None => {
            proof {
                if exists|n: nat| 0 < n && password@ == b64_of(pbkdf2_sha256(salt_b, att_b, n)) {
                    let n = choose|n: nat|
                        0 < n && password@ == b64_of(pbkdf2_sha256(salt_b, att_b, n));
                    assert(password@ == b64_of(pbkdf2_sha256(salt_b, att_b, n)));
                    assert(dec is Some);
                }
            }
            false
        },
        Some(d) => {
            // Accept only the canonical encoding: re-encode and compare.
            let reencoded = b64_encode(d.as_slice());
            if reencoded == password {
                let ok = pbkdf2_check(ss, ats, d.as_slice());
                proof {
                    if ok {
                        let n = choose|n: nat| 0 < n && d@ == pbkdf2_sha256(salt_b, att_b, n);
                        assert(password@ == b64_of(pbkdf2_sha256(salt_b, att_b, n)));
                    }
                    if exists|n: nat| 0 < n && password@ == b64_of(
                        pbkdf2_sha256(salt_b, att_b, n),
                    ) {
                        let n = choose|n: nat|
                            0 < n && password@ == b64_of(pbkdf2_sha256(salt_b, att_b, n));
                        assert(d@ == pbkdf2_sha256(salt_b, att_b, n));
                        assert(ok);
                    }
                }
                ok
            } else {
                proof {
                    if exists|n: nat| 0 < n && password@ == b64_of(
                        pbkdf2_sha256(salt_b, att_b, n),
                    ) {
                        let n = choose|n: nat|
                            0 < n && password@ == b64_of(pbkdf2_sha256(salt_b, att_b, n));
                        assert(d@ == pbkdf2_sha256(salt_b, att_b, n));
                        assert(reencoded@ == b64_of(d@));
                        assert(false);
                    }
                }
                false
            }
        },
    }
}

/// Law: a digest produced by `hash` for (salt, secret) always verifies
/// against the same salt and secret.
pub proof fn lemma_verify_of_hash(salt: Seq<char>, secret: Seq<char>)
    ensures
        verify_spec(salt, hash_spec(salt, secret), secret),
{
    assert(0 < CREDENTIAL_LEN as nat && hash_spec(salt, secret) == b64_of(
        pbkdf2_sha256(encode_utf8(salt), encode_utf8(secret), CREDENTIAL_LEN as nat),
    ));
}

/// Law: verifying the stored digest of `secret` with a different
/// attempted secret fails, provided the key derivation collides between
/// the two secrets at no output length under this salt. Base64 is
/// injective (proved), so the only inputs this premise excludes are
/// derivation collisions themselves, never observed for this
/// derivation.
pub proof fn lemma_verify_rejects_other(salt: Seq<char>, secret: Seq<char>, attempted: Seq<char>)
    requires
        forall|n: nat|
            0 < n ==> pbkdf2_sha256(encode_utf8(salt), encode_utf8(attempted), n) != pbkdf2_sha256(
                encode_utf8(salt),
                encode_utf8(secret),
                CREDENTIAL_LEN as nat,
            ),
    ensures
        !verify_spec(salt, hash_spec(salt, secret), attempted),
{
    if verify_spec(salt, hash_spec(salt, secret), attempted) {
        let n = choose|n: nat|
            0 < n && hash_spec(salt, secret) == b64_of(
                pbkdf2_sha256(encode_utf8(salt), encode_utf8(attempted), n),
            );
        lemma_b64_injective(
            pbkdf2_sha256(encode_utf8(salt), encode_utf8(attempted), n),
            pbkdf2_sha256(encode_utf8(salt), encode_utf8(secret), CREDENTIAL_LEN as nat),
        );
    }
}

} // verus!
