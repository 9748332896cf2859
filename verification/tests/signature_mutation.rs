use beacon_relayer::bls::{verify, RoundPublicKey};
use beacon_relayer::commitment::{Commitment, Payload};
use w3f_bls::{DoublePublicKeyScheme, Message, SecretKeyVT, SerializableToBytes, TinyBLS377};

fn commitment(block_number: u32, validator_set_id: u64) -> Commitment {
    Commitment {
        payload: Payload::from_single_entry(*b"ef", Vec::new()),
        block_number,
        validator_set_id,
    }
}

fn signed(seed: &[u8], block_number: u32, validator_set_id: u64) -> (RoundPublicKey, Vec<u8>) {
    let mut secret = SecretKeyVT::<TinyBLS377>::from_seed(seed);
    let key = RoundPublicKey::from_bytes(secret.into_double_public_key().to_bytes()).unwrap();
    let message = Message::new(b"", &commitment(block_number, validator_set_id).encode());
    (key, DoublePublicKeyScheme::sign(&mut secret, &message).to_bytes())
}

#[test]
fn reference_signatures_verify() {
    for (seed, block_number, validator_set_id) in
        [(&b"a"[..], 0u32, 0u64), (&b"b"[..], 100, 3), (&b"c"[..], u32::MAX, u64::MAX)]
    {
        let (key, signature) = signed(seed, block_number, validator_set_id);
        assert_eq!(verify(&commitment(block_number, validator_set_id), &signature, &key), Ok(true));
    }
}

#[test]
fn flipped_bit_in_the_point_of_a_signature_is_not_accepted() {
    let (key, signature) = signed(b"b", 100, 3);
    let c = commitment(100, 3);
    for i in 0..48 {
        let mut mutated = signature.clone();
        mutated[i] ^= 1 << (i % 8);
        assert_ne!(verify(&c, &mutated, &key), Ok(true), "bit flipped in byte {}", i);
    }
}

#[test]
fn flipped_bit_in_the_proof_of_a_signature_is_not_accepted() {
    let (key, signature) = signed(b"b", 100, 3);
    let c = commitment(100, 3);
    for i in 48..112 {
        let mut mutated = signature.clone();
        mutated[i] ^= 1 << (i % 8);
        assert_ne!(verify(&c, &mutated, &key), Ok(true), "bit flipped in byte {}", i);
    }
}

#[test]
fn flipped_bit_in_the_block_number_is_not_accepted() {
    let (key, signature) = signed(b"b", 100, 3);
    for bit in 0..32 {
        assert_eq!(verify(&commitment(100 ^ (1 << bit), 3), &signature, &key), Ok(false));
    }
}

#[test]
fn flipped_bit_in_the_validator_set_id_is_not_accepted() {
    let (key, signature) = signed(b"b", 100, 3);
    for bit in 0..64 {
        assert_eq!(verify(&commitment(100, 3 ^ (1 << bit)), &signature, &key), Ok(false));
    }
}

#[test]
fn changed_payload_is_not_accepted() {
    let (key, signature) = signed(b"b", 100, 3);
    let mut other = commitment(100, 3);
    other.payload = Payload::from_single_entry(*b"eg", Vec::new());
    assert_eq!(verify(&other, &signature, &key), Ok(false));
    let mut other = commitment(100, 3);
    other.payload = Payload::from_single_entry(*b"ef", vec![0]);
    assert_eq!(verify(&other, &signature, &key), Ok(false));
}
