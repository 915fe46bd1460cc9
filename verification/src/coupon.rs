//! Construction and verification of redemption coupons.
//!
//! A coupon authorizes release of `amount` SOL to `recipient_sol_addr` for
//! burn `burn_id`. Its message hash is the SHA3-256 digest of
//! `domain_tag ‖ big_endian(burn_id, 8) ‖ recipient ‖ big_endian(amount, 16)`
//! and its signature is a 64-byte secp256k1 signature of that hash under
//! the 33-byte compressed signer key.

use vstd::prelude::*;

use crate::bytes::{push_all, push_be_bytes_16, push_be_bytes_8, spec_be_bytes_16, spec_be_bytes_8};
use crate::crypto::{secp256k1_verify_ok, sha3_256, sha3_256_of, verify_signature};
use crate::events::{clone_bytes, Coupon, CouponModel, WithdrawalModel};

verus! {

/// A coupon whose fields cannot carry a secp256k1 verification.
#[derive(Debug, PartialEq, Eq)]
pub enum CouponError {
    InvalidMessageHash,
    InvalidSignature,
    InvalidPublicKey,
}

/// The fixed domain separation tag leading every coupon message.
pub open spec fn spec_domain_tag() -> Seq<u8> {
    seq![71u8, 83u8, 79u8, 76u8, 45u8, 67u8, 80u8, 78u8]  // "GSOL-CPN"
}

pub fn domain_tag() -> (r: Vec<u8>)
    ensures
        r@ == spec_domain_tag(),
{
    let mut r: Vec<u8> = Vec::new();
    r.push(71u8);
    r.push(83u8);
    r.push(79u8);
    r.push(76u8);
    r.push(45u8);
    r.push(67u8);
    r.push(80u8);
    r.push(78u8);
    proof {
        assert(r@ =~= spec_domain_tag());
    }
    r
}

/// The signed message of a coupon.
pub open spec fn spec_coupon_message(burn_id: u64, recipient: Seq<u8>, amount: u128) -> Seq<u8> {
    spec_domain_tag() + spec_be_bytes_8(burn_id) + recipient + spec_be_bytes_16(amount)
}

/// Builds the byte string whose digest the signer signs.
pub fn coupon_message_bytes(burn_id: u64, recipient: &Vec<u8>, amount: u128) -> (r: Vec<u8>)
    ensures
        r@ == spec_coupon_message(burn_id, recipient@, amount),
{
    let mut r = domain_tag();
    push_be_bytes_8(&mut r, burn_id);
    push_all(&mut r, recipient);
    push_be_bytes_16(&mut r, amount);
    r
}

/// Structural validity of a coupon: the hash is the digest of its own
/// fields' message, and the signature verifies under the signer key.
pub open spec fn spec_coupon_valid(c: CouponModel) -> bool {
    &&& c.message_hash == sha3_256_of(spec_coupon_message(c.burn_id, c.recipient, c.amount))
    &&& c.message_hash.len() == 32
    &&& c.signature.len() == 64
    &&& c.signer_public_key.len() == 33
    &&& secp256k1_verify_ok(c.message_hash, c.signature, c.signer_public_key)
}

/// A redeemed withdrawal carries a coupon that repeats its own fields and
/// is valid.
pub open spec fn spec_coupon_matches_withdrawal(w: WithdrawalModel) -> bool {
    &&& w.coupon is Some
    &&& {
        let c = w.coupon.unwrap();
        &&& c.burn_id == w.burn_id
        &&& c.recipient == w.recipient
        &&& c.amount == w.amount
        &&& spec_coupon_valid(c)
    }
}

impl Coupon {
    /// Assembles a coupon from the withdrawal's fields and the signer's
    /// reply, recomputing the message hash and checking the signature.
    /// Returns the coupon exactly when the pieces verify together.
    pub fn build(
        burn_id: u64,
        recipient: &Vec<u8>,
        amount: u128,
        signature: Vec<u8>,
        signer_public_key: Vec<u8>,
    ) -> (r: Result<Coupon, CouponError>)
        ensures
            r matches Ok(c) ==> c@ == (CouponModel {
                burn_id: burn_id,
                recipient: recipient@,
                amount: amount,
                message_hash: sha3_256_of(spec_coupon_message(burn_id, recipient@, amount)),
                signature: signature@,
                signer_public_key: signer_public_key@,
            }) && spec_coupon_valid(c@),
            r is Ok <==> signature@.len() == 64 && signer_public_key@.len() == 33
                && secp256k1_verify_ok(
                sha3_256_of(spec_coupon_message(burn_id, recipient@, amount)),
                signature@,
                signer_public_key@,
            ),
            r matches Err(e) ==> (e == CouponError::InvalidSignature && signature@.len() != 64) || (
            e == CouponError::InvalidPublicKey && signature@.len() == 64
                && signer_public_key@.len() != 33) || (e == CouponError::InvalidMessageHash
                && signature@.len() == 64 && signer_public_key@.len() == 33),
    {
        if signature.len() != 64 {
            return Err(CouponError::InvalidSignature);
        }
        if signer_public_key.len() != 33 {
            return Err(CouponError::InvalidPublicKey);
        }
        let message = coupon_message_bytes(burn_id, recipient, amount);
        let message_hash = sha3_256(&message);
        if !verify_signature(&message_hash, &signature, &signer_public_key) {
            return Err(CouponError::InvalidMessageHash);
        }
        Ok(
            Coupon {
                burn_id,
                recipient_sol_addr: clone_bytes(recipient),
                amount,
                message_hash,
                signature,
                signer_public_key,
            },
        )
    }

    /// Self-contained check: recomputes the message hash from the coupon's
    /// own fields and verifies the signature. `Ok(true)` exactly when both
    /// hold; malformed field lengths are errors.
    pub fn verify(&self) -> (r: Result<bool, CouponError>)
        ensures
            r matches Ok(b) ==> b == (self@.message_hash == sha3_256_of(
                spec_coupon_message(self@.burn_id, self@.recipient, self@.amount),
            ) && secp256k1_verify_ok(
                self@.message_hash,
                self@.signature,
                self@.signer_public_key,
            )),
            r is Ok <==> self@.message_hash.len() == 32 && self@.signature.len() == 64
                && self@.signer_public_key.len() == 33,
            r matches Err(e) ==> (e == CouponError::InvalidMessageHash && self@.message_hash.len()
                != 32) || (e == CouponError::InvalidSignature && self@.message_hash.len() == 32
                && self@.signature.len() != 64) || (e == CouponError::InvalidPublicKey
                && self@.message_hash.len() == 32 && self@.signature.len() == 64
                && self@.signer_public_key.len() != 33),
            spec_coupon_valid(self@) ==> r == Ok::<bool, CouponError>(true),
    {
        if self.message_hash.len() != 32 {
            return Err(CouponError::InvalidMessageHash);
        }
        if self.signature.len() != 64 {
            return Err(CouponError::InvalidSignature);
        }
        if self.signer_public_key.len() != 33 {
            return Err(CouponError::InvalidPublicKey);
        }
        let message = coupon_message_bytes(self.burn_id, &self.recipient_sol_addr, self.amount);
        let expected_hash = sha3_256(&message);
        let hash_matches = crate::bytes::bytes_eq(&expected_hash, &self.message_hash);
        let sig_ok = verify_signature(&self.message_hash, &self.signature, &self.signer_public_key);
        Ok(hash_matches && sig_ok)
    }
}

} // verus!
