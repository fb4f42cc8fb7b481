//! The salt a new campaign contract is deployed under.

use soroban_sdk::Bytes;
use soroban_sdk::Env;
use vstd::prelude::*;

verus! {

/// The host environment a contract runs in; the campaign factory needs it to
/// hash with the host's Keccak-256.
#[verifier::external_type_specification]
#[verifier::external_body]
pub struct ExEnv(Env);

/// The Keccak-256 digest of `data`, as the host computes it.
pub uninterp spec fn keccak256_digest(data: Seq<u8>) -> Seq<u8>;

/// Calls `soroban_sdk::crypto::Crypto::keccak256` on the 32 bytes of
/// `data` and returns the digest's bytes. The contract claims only that the
/// result is the Keccak-256 digest of exactly these bytes (a function of the
/// bytes alone); what that digest is, is left to the named function.
#[verifier::external_body]
fn host_keccak256(env: &Env, data: &[u8; 32]) -> (digest: [u8; 32])
    ensures
        digest@ == keccak256_digest(data@),
{
    env.crypto().keccak256(&Bytes::from_slice(env, data)).to_array()
}

/// The salt a campaign is deployed under: the Keccak-256 digest of the
/// 32 random bytes drawn for the deployment.
pub fn deployment_salt(env: &Env, random: &[u8; 32]) -> (salt: [u8; 32])
    ensures
        salt@ == keccak256_digest(random@),
{
    host_keccak256(env, random)
}

} // verus!
