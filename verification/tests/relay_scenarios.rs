use beacon_relayer::bls::KeyResolutionError;
use beacon_relayer::codec::DecodeError;
use beacon_relayer::commitment::{Commitment, Payload};
use beacon_relayer::coordinator::{
    Action, Config, Coordinator, Event, State, Termination, TxOutcome,
};
use beacon_relayer::gateway::{AccountId, Gateway};
use beacon_relayer::publisher::{method_selector, DestinationCall, DestinationCallTarget};
use parity_scale_codec::Encode;
use w3f_bls::{DoublePublicKeyScheme, Message, SecretKeyVT, SerializableToBytes, TinyBLS377};

const PAYLOAD_ID: [u8; 2] = *b"ef";

fn config(target: DestinationCallTarget) -> Config {
    Config { target, payload_id: PAYLOAD_ID }
}

fn signer() -> SecretKeyVT<TinyBLS377> {
    SecretKeyVT::<TinyBLS377>::from_seed(b"beacon round")
}

fn key_bytes(secret: &SecretKeyVT<TinyBLS377>) -> Vec<u8> {
    secret.into_double_public_key().to_bytes()
}

fn sign(secret: &mut SecretKeyVT<TinyBLS377>, block_number: u32, validator_set_id: u64) -> [u8; 112] {
    let commitment = Commitment {
        payload: Payload::from_single_entry(PAYLOAD_ID, Vec::new()),
        block_number,
        validator_set_id,
    };
    let bytes = DoublePublicKeyScheme::sign(secret, &Message::new(b"", &commitment.encode())).to_bytes();
    let mut raw = [0u8; 112];
    raw.copy_from_slice(&bytes);
    raw
}

fn frame(block_number: u32, field: Vec<u8>, set_len: u32, present: Vec<[u8; 112]>) -> Vec<u8> {
    let payload: Vec<([u8; 2], Vec<u8>)> = vec![(*b"mh", vec![0x11; 32])];
    let mut out = vec![1u8];
    out.extend((payload, block_number, 3u64).encode());
    out.extend(field.encode());
    out.extend(set_len.encode());
    out.extend(present.encode());
    out
}

fn streaming(target: DestinationCallTarget, key: Vec<u8>) -> Coordinator {
    let relay = Coordinator::new(config(target));
    assert!(matches!(relay.state, State::Idle));
    let (relay, action) = relay.step(Event::Started);
    assert!(matches!(action, Action::FetchRoundKey));
    assert!(matches!(relay.state, State::Idle));
    let (relay, action) = relay.step(Event::RoundKey(Some(key)));
    assert!(matches!(action, Action::Subscribe));
    assert!(matches!(relay.state, State::KeyResolved { .. }));
    let (relay, action) = relay.step(Event::Subscribed);
    assert!(matches!(action, Action::NextFrame));
    assert!(matches!(relay.state, State::Streaming { .. }));
    relay
}

fn stopped_for(relay: &Coordinator, action: &Action, reason: Termination) {
    assert!(matches!(action, Action::Stop));
    assert!(relay.is_terminated());
    match &relay.state {
        State::Terminated { reason: found } => assert_eq!(*found, reason),
        other => panic!("not stopped: {:?}", other),
    }
}

#[test]
fn valid_signature_is_published_and_reaches_the_registry() {
    let mut secret = signer();
    let signature = sign(&mut secret, 100, 3);
    let relay = streaming(DestinationCallTarget::Pallet, key_bytes(&secret));

    let (relay, action) = relay.step(Event::Frame(frame(100, vec![0b1000_0000], 1, vec![signature])));
    assert!(matches!(action, Action::FetchValidatorSetId));
    match &relay.state {
        State::Verifying { block_number, signature: held, submitted, .. } => {
            assert_eq!(*block_number, 100);
            assert_eq!(held, &signature.to_vec());
            assert!(!*submitted);
        },
        other => panic!("not verifying: {:?}", other),
    }

    let (relay, action) = relay.step(Event::ValidatorSetId(Some(3)));
    assert!(matches!(relay.state, State::Verifying { submitted: true, .. }));
    let relayer = AccountId([0xa1; 32]);
    let mut registry = Gateway::new(relayer);
    match action {
        Action::Submit(DestinationCall::WritePulse { signatures, block_number }) => {
            assert_eq!(block_number, 100);
            assert_eq!(signatures, vec![signature.to_vec()]);
            for pulse in signatures {
                assert_eq!(registry.write_block(&relayer, block_number, pulse), Ok(()));
            }
        },
        other => panic!("nothing submitted: {:?}", other),
    }
    assert_eq!(registry.get_latest_block_number(), 100);
    assert_eq!(registry.read_block(100), Some(signature.to_vec()));

    let (relay, action) = relay.step(Event::Published(TxOutcome::Finalized));
    assert!(matches!(action, Action::NextFrame));
    assert!(matches!(relay.state, State::Streaming { .. }));
    assert!(!relay.is_terminated());
}

#[test]
fn invalid_signature_is_dropped_without_a_call() {
    let mut secret = signer();
    let signature = sign(&mut secret, 100, 4);
    let relay = streaming(DestinationCallTarget::Pallet, key_bytes(&secret));
    let (relay, action) = relay.step(Event::Frame(frame(100, vec![0b1000_0000], 1, vec![signature])));
    assert!(matches!(action, Action::FetchValidatorSetId));
    let (relay, action) = relay.step(Event::ValidatorSetId(Some(3)));
    assert!(matches!(action, Action::NextFrame));
    assert!(matches!(relay.state, State::Streaming { .. }));
}

#[test]
fn signature_over_another_block_is_dropped() {
    let mut secret = signer();
    let signature = sign(&mut secret, 99, 3);
    let relay = streaming(DestinationCallTarget::Contract, key_bytes(&secret));
    let (relay, _) = relay.step(Event::Frame(frame(100, vec![0b1000_0000], 1, vec![signature])));
    let (relay, action) = relay.step(Event::ValidatorSetId(Some(3)));
    assert!(matches!(action, Action::NextFrame));
    assert!(matches!(relay.state, State::Streaming { .. }));
}

#[test]
fn contract_deployment_submits_call_data() {
    let mut secret = signer();
    let signature = sign(&mut secret, 100, 3);
    let relay = streaming(DestinationCallTarget::Contract, key_bytes(&secret));
    let (relay, _) = relay.step(Event::Frame(frame(100, vec![0b1000_0000], 1, vec![signature])));
    let (_, action) = relay.step(Event::ValidatorSetId(Some(3)));
    let text = format!(
        "0x{}",
        signature.iter().map(|b| format!("{:02x}", b)).collect::<Vec<_>>().concat()
    );
    let mut expected = method_selector(b"write_block").to_vec();
    expected.extend((100u32, text).encode());
    match action {
        Action::Submit(DestinationCall::Contract { data }) => assert_eq!(data, expected),
        other => panic!("nothing submitted: {:?}", other),
    }
}

#[test]
fn first_signature_present_is_the_one_verified() {
    let mut secret = signer();
    let good = sign(&mut secret, 100, 3);
    let other = sign(&mut secret, 1, 1);
    let relay = streaming(DestinationCallTarget::Pallet, key_bytes(&secret));
    let (relay, _) = relay.step(Event::Frame(frame(100, vec![0b0110_0000], 3, vec![good, other])));
    match &relay.state {
        State::Verifying { signature, .. } => assert_eq!(signature, &good.to_vec()),
        state => panic!("not verifying: {:?}", state),
    }
    let (_, action) = relay.step(Event::ValidatorSetId(Some(3)));
    assert!(matches!(action, Action::Submit(_)));

    let relay = streaming(DestinationCallTarget::Pallet, key_bytes(&secret));
    let (relay, _) = relay.step(Event::Frame(frame(100, vec![0b0110_0000], 3, vec![other, good])));
    let (_, action) = relay.step(Event::ValidatorSetId(Some(3)));
    assert!(matches!(action, Action::NextFrame));
}

#[test]
fn failed_submission_is_not_retried() {
    let mut secret = signer();
    let signature = sign(&mut secret, 100, 3);
    let relay = streaming(DestinationCallTarget::Pallet, key_bytes(&secret));
    let (relay, _) = relay.step(Event::Frame(frame(100, vec![0b1000_0000], 1, vec![signature])));
    let (relay, action) = relay.step(Event::ValidatorSetId(Some(3)));
    assert!(matches!(action, Action::Submit(_)));
    let (relay, action) = relay.step(Event::Published(TxOutcome::Failed));
    assert!(matches!(action, Action::NextFrame));
    assert!(matches!(relay.state, State::Streaming { .. }));
}

#[test]
fn end_of_the_stream_stops_the_relay() {
    let relay = streaming(DestinationCallTarget::Pallet, key_bytes(&signer()));
    let (relay, action) = relay.step(Event::StreamEnded);
    stopped_for(&relay, &action, Termination::StreamExhausted);
    let (relay, action) = relay.step(Event::Started);
    stopped_for(&relay, &action, Termination::StreamExhausted);
}

#[test]
fn missing_round_key_stops_the_relay() {
    let (relay, _) = Coordinator::new(config(DestinationCallTarget::Pallet)).step(Event::Started);
    let (relay, action) = relay.step(Event::RoundKey(None));
    stopped_for(&relay, &action, Termination::KeyResolution(KeyResolutionError::KeyUnavailable));
}

#[test]
fn malformed_round_key_stops_the_relay() {
    let (relay, _) = Coordinator::new(config(DestinationCallTarget::Pallet)).step(Event::Started);
    let (relay, action) = relay.step(Event::RoundKey(Some(vec![0xff; 144])));
    stopped_for(&relay, &action, Termination::KeyResolution(KeyResolutionError::KeyMalformed));
}

#[test]
fn missing_validator_set_id_stops_the_relay() {
    let mut secret = signer();
    let signature = sign(&mut secret, 100, 3);
    let relay = streaming(DestinationCallTarget::Pallet, key_bytes(&secret));
    let (relay, _) = relay.step(Event::Frame(frame(100, vec![0b1000_0000], 1, vec![signature])));
    let (relay, action) = relay.step(Event::ValidatorSetId(None));
    stopped_for(&relay, &action, Termination::KeyResolution(KeyResolutionError::StateUnavailable));
}

#[test]
fn failed_connection_stops_the_relay() {
    let (relay, action) =
        Coordinator::new(config(DestinationCallTarget::Pallet)).step(Event::ConnectionFailed);
    stopped_for(&relay, &action, Termination::Connection);
    let (relay, _) = Coordinator::new(config(DestinationCallTarget::Pallet))
        .step(Event::RoundKey(Some(key_bytes(&signer()))));
    let (relay, action) = relay.step(Event::ConnectionFailed);
    stopped_for(&relay, &action, Termination::Connection);
}

#[test]
fn frame_of_another_version_stops_the_relay() {
    let relay = streaming(DestinationCallTarget::Pallet, key_bytes(&signer()));
    let mut bytes = frame(100, vec![0], 1, vec![]);
    bytes[0] = 2;
    let (relay, action) = relay.step(Event::Frame(bytes));
    stopped_for(&relay, &action, Termination::Decode(DecodeError::UnknownVersion));
}

#[test]
fn truncated_frame_stops_the_relay() {
    let relay = streaming(DestinationCallTarget::Pallet, key_bytes(&signer()));
    let bytes = frame(100, vec![0], 1, vec![]);
    let (relay, action) = relay.step(Event::Frame(bytes[..bytes.len() - 1].to_vec()));
    stopped_for(&relay, &action, Termination::Decode(DecodeError::UnexpectedEnd));
    let relay = streaming(DestinationCallTarget::Pallet, key_bytes(&signer()));
    let (relay, action) = relay.step(Event::Frame(vec![1, 0x01, 0x00]));
    stopped_for(&relay, &action, Termination::Decode(DecodeError::InvalidLength));
}

#[test]
fn frame_without_a_signature_stops_the_relay() {
    let relay = streaming(DestinationCallTarget::Pallet, key_bytes(&signer()));
    let (relay, action) = relay.step(Event::Frame(frame(100, vec![0], 4, vec![])));
    stopped_for(&relay, &action, Termination::NoSignature);
}

#[test]
fn malformed_signature_stops_the_relay_before_any_check() {
    let relay = streaming(DestinationCallTarget::Pallet, key_bytes(&signer()));
    let (relay, action) = relay.step(Event::Frame(frame(100, vec![0b1000_0000], 1, vec![[0xff; 112]])));
    stopped_for(&relay, &action, Termination::SignatureFormat);
}

#[test]
fn event_out_of_turn_stops_the_relay() {
    let (relay, action) =
        Coordinator::new(config(DestinationCallTarget::Pallet)).step(Event::StreamEnded);
    stopped_for(&relay, &action, Termination::UnexpectedEvent);
    let relay = streaming(DestinationCallTarget::Pallet, key_bytes(&signer()));
    let (relay, action) = relay.step(Event::ValidatorSetId(Some(3)));
    stopped_for(&relay, &action, Termination::UnexpectedEvent);
    let relay = streaming(DestinationCallTarget::Pallet, key_bytes(&signer()));
    let (relay, action) = relay.step(Event::Published(TxOutcome::Finalized));
    stopped_for(&relay, &action, Termination::UnexpectedEvent);
}
