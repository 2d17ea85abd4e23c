//! SRP-6a credential computations for pair-setup.
//!
//! The handshake uses the RFC 5054 3072-bit group with SHA-512. The group
//! arithmetic itself is done by the `srp` crate; its results are named here
//! as functions of their inputs, and everything built on them is verified
//! against those names.

use vstd::prelude::*;
use rand::RngCore;

verus! {

/// The client's public ephemeral value derived from a secret exponent
/// (g^a mod N in the fixed group), big-endian.
pub uninterp spec fn srp_public_of(a: Seq<u8>) -> Seq<u8>;

/// Whether the client accepts a server public value; it is rejected exactly
/// when it reduces to zero modulo the group prime.
pub uninterp spec fn srp_reply_ok(b_pub: Seq<u8>) -> bool;

/// The client's handshake proof, a function of the secret exponent,
/// identity, password, salt and server public value alone.
pub uninterp spec fn srp_proof_of(
    a: Seq<u8>,
    username: Seq<u8>,
    password: Seq<u8>,
    salt: Seq<u8>,
    b_pub: Seq<u8>,
) -> Seq<u8>;

/// The server confirmation proof the client expects for the same handshake.
pub uninterp spec fn srp_server_proof_of(
    a: Seq<u8>,
    username: Seq<u8>,
    password: Seq<u8>,
    salt: Seq<u8>,
    b_pub: Seq<u8>,
) -> Seq<u8>;

/// Relies on srp's `SrpClient::compute_public_ephemeral`: it computes
/// g^a mod N in the chosen group, a function of the secret alone.
#[verifier::external_body]
pub(crate) fn srp_client_public(a: &[u8]) -> (r: Vec<u8>)
    ensures
        r@ == srp_public_of(a@),
{
    let client = srp::client::SrpClient::<sha2::Sha512>::new(&srp::groups::G_3072);
    client.compute_public_ephemeral(a)
}

/// Relies on srp's `SrpClient::process_reply` and
/// `SrpClientVerifier::proof`: `process_reply` fails exactly when the
/// server's public value reduces to zero modulo the group prime, and the
/// verifier it returns, hence its proof, is a function of the five inputs
/// alone.
#[verifier::external_body]
pub(crate) fn srp_client_proof(
    a: &[u8],
    username: &[u8],
    password: &[u8],
    salt: &[u8],
    b_pub: &[u8],
) -> (r: Option<Vec<u8>>)
    ensures
        r is Some <==> srp_reply_ok(b_pub@),
        r is Some ==> r->0@ == srp_proof_of(a@, username@, password@, salt@, b_pub@),
{
    let client = srp::client::SrpClient::<sha2::Sha512>::new(&srp::groups::G_3072);
    match client.process_reply(a, username, password, salt, b_pub) {
        Ok(v) => Some(v.proof().to_vec()),
        Err(_) => None,
    }
}

/// Relies on srp's `SrpClient::process_reply` and
/// `SrpClientVerifier::verify_server`: verification succeeds exactly when
/// the reply was acceptable and the peer's proof equals the verifier's
/// expected server proof (a constant-time comparison that is false for any
/// other length or content).
#[verifier::external_body]
pub(crate) fn srp_verify_server(
    a: &[u8],
    username: &[u8],
    password: &[u8],
    salt: &[u8],
    b_pub: &[u8],
    server_proof: &[u8],
) -> (r: bool)
    ensures
        r == (srp_reply_ok(b_pub@) && server_proof@ == srp_server_proof_of(
            a@,
            username@,
            password@,
            salt@,
            b_pub@,
        )),
{
    let client = srp::client::SrpClient::<sha2::Sha512>::new(&srp::groups::G_3072);
    match client.process_reply(a, username, password, salt, b_pub) {
        Ok(v) => v.verify_server(server_proof).is_ok(),
        Err(_) => false,
    }
}

/// Relies on rand's `OsRng` (`RngCore::fill_bytes`) to draw the per-attempt
/// secret exponent from the operating system's entropy source; nothing is
/// promised of the bytes beyond their count.
#[verifier::external_body]
pub(crate) fn random_secret() -> (r: Vec<u8>)
    ensures
        r@.len() == 64,
{
    let mut a = [0u8; 64];
    rand::rngs::OsRng.fill_bytes(&mut a);
    a.to_vec()
}

} // verus!
