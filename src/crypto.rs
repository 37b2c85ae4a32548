//! Trusted entry points into the cryptographic crates, each with the
//! contract the rest of the library relies on.

use aes::cipher::generic_array::GenericArray;
use aes::cipher::{NewCipher, StreamCipher};
use rand::Rng;
use sha2::Digest;
use vstd::prelude::*;

verus! {

/// The SHA-256 digest of a byte string.
pub uninterp spec fn sha256_of(data: Seq<u8>) -> Seq<u8>;

/// Byte `i` of the AES-256-CTR keystream for a 32-byte key and a 16-byte
/// initial counter block.
pub uninterp spec fn ctr_keystream(key: Seq<u8>, iv: Seq<u8>, i: nat) -> u8;

/// The X25519 shared secret of a private scalar and an Ed25519 public key,
/// or `None` when the public key is not a valid curve point.
pub uninterp spec fn x25519_shared(private_key_part: Seq<u8>, public_key: Seq<u8>) -> Option<Seq<u8>>;

/// Relies on `sha2::Sha256::digest`: the 32-byte SHA-256 digest of the input.
#[verifier::external_body]
pub(crate) fn sha256(data: &[u8]) -> (r: [u8; 32])
    ensures
        r@ == sha256_of(data@),
{
    sha2::Sha256::digest(data).into()
}

/// Relies on `aes::Aes256Ctr::new` and `StreamCipher::apply_keystream`: the
/// bytes from `from` on are XORed with the keystream from its first byte on;
/// the bytes before `from` are left alone.
#[verifier::external_body]
pub(crate) fn apply_ctr_keystream(key: &[u8], iv: &[u8], buffer: &mut Vec<u8>, from: usize)
    requires
        key@.len() == 32,
        iv@.len() == 16,
        from <= old(buffer)@.len(),
    ensures
        final(buffer)@.len() == old(buffer)@.len(),
        forall|i: int| 0 <= i < from ==> final(buffer)@[i] == old(buffer)@[i],
        forall|i: int|
            from <= i < old(buffer)@.len() ==> final(buffer)@[i] == old(buffer)@[i]
                ^ ctr_keystream(key@, iv@, (i - from) as nat),
{
    let mut cipher = aes::Aes256Ctr::new(GenericArray::from_slice(key), GenericArray::from_slice(iv));
    cipher.apply_keystream(&mut buffer[from..]);
}

/// Relies on curve25519-dalek: `CompressedEdwardsY::decompress` of the public
/// key, `EdwardsPoint::to_montgomery`, and the Montgomery ladder with the
/// private scalar taken as is by `Scalar::from_bits` (the key part is the
/// already clamped half of an expanded Ed25519 secret).
#[verifier::external_body]
pub(crate) fn x25519(private_key_part: &[u8; 32], public_key: &[u8; 32]) -> (r: Option<[u8; 32]>)
    ensures
        match r {
            Some(s) => x25519_shared(private_key_part@, public_key@) == Some(s@),
            None => x25519_shared(private_key_part@, public_key@) is None,
        },
{
    let point = curve25519_dalek::edwards::CompressedEdwardsY(*public_key).decompress()?;
    let scalar = curve25519_dalek::scalar::Scalar::from_bits(*private_key_part);
    Some((point.to_montgomery() * scalar).to_bytes())
}

/// Relies on `rand::thread_rng().gen()`: 32 bytes drawn at random; nothing
/// is promised of their value.
#[verifier::external_body]
pub(crate) fn random_bytes32() -> (r: [u8; 32]) {
    rand::thread_rng().gen()
}

} // verus!
