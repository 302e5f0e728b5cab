//! The outside functions this library relies on: SCALE encoding, the
//! Blake2-256 hash and sr25519 signature verification.
use parity_scale_codec::Encode;
use sp_runtime::traits::BlakeTwo256;
use vstd::prelude::*;

verus! {

/// What Blake2-256 gives on a byte string.
pub uninterp spec fn blake2_256_of(data: Seq<u8>) -> Seq<u8>;

/// Whether `signature` is a valid sr25519 signature of `message` by the
/// holder of the public key `signer`.
pub uninterp spec fn sr25519_signs(signature: Seq<u8>, message: Seq<u8>, signer: Seq<u8>) -> bool;

/// The SCALE compact encoding of a length below 2^14: one byte below 64,
/// two little-endian bytes above, the low two bits giving the mode.
pub open spec fn compact_len(n: nat) -> Seq<u8>
    recommends
        n < 0x4000,
{
    if n < 64 {
        seq![(n * 4) as u8]
    } else {
        seq![((n * 4 + 1) % 256) as u8, ((n * 4 + 1) / 256) as u8]
    }
}

/// The four little-endian bytes of `x`.
pub open spec fn le_bytes_u32(x: u32) -> Seq<u8> {
    seq![
        (x % 0x100) as u8,
        ((x / 0x100) % 0x100) as u8,
        ((x / 0x1_0000) % 0x100) as u8,
        (x / 0x100_0000) as u8,
    ]
}

/// Relies on `BlakeTwo256::hash` of sp-runtime: the 32-byte Blake2-256 digest
/// of the bytes, which depends on the bytes alone.
#[verifier::external_body]
pub(crate) fn blake2_256(data: &Vec<u8>) -> (r: [u8; 32])
    ensures
        r@ == blake2_256_of(data@),
{
    <BlakeTwo256 as sp_runtime::traits::Hash>::hash(data.as_slice()).0
}

/// Relies on parity-scale-codec's `Encode` for `[u8]`: a compact length
/// prefix followed by the bytes themselves.
#[verifier::external_body]
pub(crate) fn encode_bytes(data: &Vec<u8>) -> (r: Vec<u8>)
    requires
        data@.len() < 0x4000,
    ensures
        r@ == compact_len(data@.len()) + data@,
{
    data.as_slice().encode()
}

/// Relies on parity-scale-codec's `Encode` for the pair `(u8, u32)`: the byte,
/// then the four little-endian bytes of the integer.
#[verifier::external_body]
pub(crate) fn encode_choice_salt(choice: u8, salt: u32) -> (r: Vec<u8>)
    ensures
        r@ == seq![choice] + le_bytes_u32(salt),
{
    (choice, salt).encode()
}

/// Relies on sp-runtime's `Verify` for `MultiSignature`, on its sr25519
/// variant: whether the signature verifies for the message and the account
/// whose 32 bytes are the public key.
#[verifier::external_body]
pub(crate) fn verify_sr25519(signature: &[u8; 64], message: &Vec<u8>, signer: &[u8; 32]) -> (r: bool)
    ensures
        r == sr25519_signs(signature@, message@, signer@),
{
    let sig = sp_runtime::MultiSignature::Sr25519(
        sp_runtime::app_crypto::sr25519::Signature::from_raw(*signature),
    );
    let who = sp_runtime::AccountId32::new(*signer);
    <sp_runtime::MultiSignature as sp_runtime::traits::Verify>::verify(&sig, message.as_slice(), &who)
}

} // verus!
