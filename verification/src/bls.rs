//! The signature scheme of the beacon: round keys, raw signatures and the
//! check of a signature against the bytes of a commitment.
//!
//! The arithmetic on the curve is that of `w3f-bls` over BLS12-377, with
//! signatures in the first group. This module reaches it through four small
//! functions whose contracts are taken on trust; everything else is proved
//! from them.

use crate::commitment::{commitment_bytes, payload_fits, Commitment};
use ark_serialize::{CanonicalDeserialize, CanonicalSerialize};
use vstd::prelude::*;
use w3f_bls::{DoublePublicKey, DoubleSignature, Message, SerializableToBytes, TinyBLS377};

verus! {

/// Whether `bytes` start with the compressed form of a round key: a point of
/// each of the two groups, both valid.
pub uninterp spec fn round_key_decodes(bytes: Seq<u8>) -> bool;

/// Whether `bytes` start with the compressed form of a signature: a valid
/// point of the first group and the two scalars of its proof.
pub uninterp spec fn signature_decodes(bytes: Seq<u8>) -> bool;

/// Whether the signature read from `signature` holds for `message` under
/// `context` and the round key read from `key`.
pub uninterp spec fn signature_holds(
    context: Seq<u8>,
    message: Seq<u8>,
    signature: Seq<u8>,
    key: Seq<u8>,
) -> bool;

/// The compressed form of the signature read from `signature`.
pub uninterp spec fn compressed_signature(signature: Seq<u8>) -> Seq<u8>;

/// Tries `bytes` as a round key.
///
/// Trusted: calls `DoublePublicKey::<TinyBLS377>::deserialize_compressed` of
/// `w3f-bls` (the method is `ark-serialize`'s) and says whether it returned
/// `Ok`. The contract only gives that answer its name.
#[verifier::external_body]
fn round_key_parses(bytes: &[u8]) -> (ok: bool)
    ensures
        ok == round_key_decodes(bytes@),
{
    DoublePublicKey::<TinyBLS377>::deserialize_compressed(bytes).is_ok()
}

/// Tries `bytes` as a signature.
///
/// Trusted: calls `DoubleSignature::<TinyBLS377>::from_bytes` of `w3f-bls` and
/// says whether it returned `Ok`. The contract only gives that answer its
/// name.
#[verifier::external_body]
fn signature_parses(bytes: &[u8]) -> (ok: bool)
    ensures
        ok == signature_decodes(bytes@),
{
    DoubleSignature::<TinyBLS377>::from_bytes(bytes).is_ok()
}

/// Checks a signature.
///
/// Trusted: reads the signature and the key from their bytes, builds the
/// message with `Message::new(context, message)` and calls
/// `DoubleSignature::verify` of `w3f-bls`. The contract names the answer as a
/// function of the four byte strings. It asks that both byte strings decode,
/// so the two `unwrap`s find a value; `verify` itself hashes the message to
/// the curve and unwraps the result inside the outside crate.
#[verifier::external_body]
fn signature_checks(context: &[u8], message: &[u8], signature: &[u8], key: &[u8]) -> (ok: bool)
    requires
        signature_decodes(signature@),
        round_key_decodes(key@),
    ensures
        ok == signature_holds(context@, message@, signature@, key@),
{
    let signature = DoubleSignature::<TinyBLS377>::from_bytes(signature).unwrap();
    let key = DoublePublicKey::<TinyBLS377>::deserialize_compressed(key).unwrap();
    signature.verify(&Message::new(context, message), &key)
}

/// Writes a signature in compressed form.
///
/// Trusted: reads the signature from its bytes and calls
/// `serialize_compressed` on it (of `ark-serialize`, as `w3f-bls` derives it
/// for `DoubleSignature`), into a fresh vector, which cannot fail. The
/// contract names what is written as a function of the bytes read, and
/// states its length: 48 bytes for the compressed point and 32 for each of
/// the two scalars, the size that `w3f-bls` gives as
/// `SERIALIZED_BYTES_SIZE`.
#[verifier::external_body]
fn signature_recompressed(signature: &[u8]) -> (out: Vec<u8>)
    requires
        signature_decodes(signature@),
    ensures
        out@ == compressed_signature(signature@),
        out@.len() == 112,
{
    let signature = DoubleSignature::<TinyBLS377>::from_bytes(signature).unwrap();
    let mut out = Vec::new();
    signature.serialize_compressed(&mut out).unwrap();
    out
}

/// The domain tag under which commitments are signed: the empty string.
pub open spec fn domain_tag() -> Seq<u8> {
    Seq::<u8>::empty()
}

/// A round key could not be had.
#[derive(Clone, Copy, Debug, PartialEq, Eq, Structural)]
pub enum KeyResolutionError {
    /// The chain holds no round key.
    KeyUnavailable,
    /// The bytes that the chain holds are no round key.
    KeyMalformed,
    /// The chain holds no validator set id.
    StateUnavailable,
}

/// The raw bytes of a signature are no signature.
#[derive(Clone, Copy, Debug, PartialEq, Eq, Structural)]
pub struct SignatureFormatError;

/// The verification key of a round, held as the bytes it was resolved from.
/// Every value of this type decodes to a key.
#[derive(Debug)]
pub struct RoundPublicKey {
    bytes: Vec<u8>,
}

impl View for RoundPublicKey {
    type V = Seq<u8>;

    closed spec fn view(&self) -> Seq<u8> {
        self.bytes@
    }
}

impl RoundPublicKey {
    #[verifier::type_invariant]
    spec fn well_formed(self) -> bool {
        round_key_decodes(self.bytes@)
    }

    /// Takes `bytes` as a round key, if they are one.
    pub fn from_bytes(bytes: Vec<u8>) -> (r: Result<RoundPublicKey, KeyResolutionError>)
        ensures
            r is Ok <==> round_key_decodes(bytes@),
            r is Ok ==> r->Ok_0@ == bytes@,
            r is Err ==> r->Err_0 == KeyResolutionError::KeyMalformed,
    {
        if round_key_parses(bytes.as_slice()) {
            Ok(RoundPublicKey { bytes })
        } else {
            Err(KeyResolutionError::KeyMalformed)
        }
    }

    /// The bytes of the key.
    pub fn as_bytes(&self) -> (bytes: &[u8])
        ensures
            bytes@ == self@,
            round_key_decodes(self@),
    {
        proof {
            use_type_invariant(self);
        }
        self.bytes.as_slice()
    }
}

/// A verified signature bound to the block it certifies: what is published.
#[derive(Debug)]
pub struct Pulse {
    pub block_number: u32,
    pub signature: Vec<u8>,
}

/// Whether `bytes` are the raw form of a signature.
pub fn is_signature(bytes: &[u8]) -> (ok: bool)
    ensures
        ok == signature_decodes(bytes@),
{
    signature_parses(bytes)
}

/// Checks `signature` against the canonical bytes of `commitment` under the
/// round key. Raw bytes that are no signature are an error, before any check
/// is tried; a signature that does not hold is `Ok(false)`.
pub fn verify(commitment: &Commitment, signature: &[u8], round_key: &RoundPublicKey) -> (r: Result<
    bool,
    SignatureFormatError,
>)
    requires
        payload_fits(commitment@.payload),
    ensures
        r is Ok <==> signature_decodes(signature@),
        r is Ok ==> r->Ok_0 == signature_holds(
            domain_tag(),
            commitment_bytes(commitment@),
            signature@,
            round_key@,
        ),
{
    if !signature_parses(signature) {
        return Err(SignatureFormatError);
    }
    let message = commitment.encode();
    let tag: Vec<u8> = Vec::new();
    assert(tag@ =~= domain_tag());
    Ok(signature_checks(tag.as_slice(), message.as_slice(), signature, round_key.as_bytes()))
}

/// Checks `signature` as `verify` does and, where it holds, makes the pulse
/// for the block of `commitment`: the block number with the signature in
/// compressed form.
pub fn verified_pulse(
    commitment: &Commitment,
    signature: &[u8],
    round_key: &RoundPublicKey,
) -> (r: Result<Option<Pulse>, SignatureFormatError>)
    requires
        payload_fits(commitment@.payload),
    ensures
        r is Ok <==> signature_decodes(signature@),
        r is Ok ==> (r->Ok_0 is Some <==> signature_holds(
            domain_tag(),
            commitment_bytes(commitment@),
            signature@,
            round_key@,
        )),
        r is Ok && r->Ok_0 is Some ==> r->Ok_0->Some_0.block_number == commitment.block_number
            && r->Ok_0->Some_0.signature@ == compressed_signature(signature@)
            && r->Ok_0->Some_0.signature@.len() == 112,
{
    match verify(commitment, signature, round_key) {
        Err(e) => Err(e),
        Ok(false) => Ok(None),
        Ok(true) => Ok(
            Some(
                Pulse {
                    block_number: commitment.block_number,
                    signature: signature_recompressed(signature),
                },
            ),
        ),
    }
}

} // verus!
