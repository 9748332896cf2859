//! The sequencing of the relay: which outside step comes next, given what
//! the last one brought.
//!
//! The coordinator does no reading or writing itself. It is handed an event,
//! moves to its next state and names the action that the caller is to
//! perform; the outcome of that action is the next event. One justification
//! is verified and, if it holds, published and confirmed before the next is
//! asked for, so a single signer account never has two calls in flight.

use crate::bls::{
    compressed_signature, domain_tag, is_signature, round_key_decodes, signature_decodes,
    signature_holds, verified_pulse, KeyResolutionError, RoundPublicKey,
};
use crate::codec::DecodeError;
use crate::commitment::{commitment_bytes, Commitment, CommitmentView, Payload, PayloadEntryView};
use crate::justification::{first_present, read_justification, JustificationMessage};
use crate::publisher::{
    destination_call, publish, DestinationCall, DestinationCallTarget, DestinationCallView,
};
use vstd::prelude::*;
use vstd::slice::slice_to_vec;

verus! {

/// What a deployment fixes once: the form of the destination call, and the
/// key of the payload entry that the beacon's validators sign.
#[derive(Clone, Copy, Debug)]
pub struct Config {
    pub target: DestinationCallTarget,
    pub payload_id: [u8; 2],
}

/// How a submitted call ended.
#[derive(Clone, Copy, Debug, PartialEq, Eq, Structural)]
pub enum TxOutcome {
    /// The call is in a finalized block and succeeded.
    Finalized,
    /// The call was rejected, failed or was not finalized.
    Failed,
}

/// Why the relay stopped.
#[derive(Clone, Copy, Debug, PartialEq, Eq, Structural)]
pub enum Termination {
    /// The subscription brought its last item.
    StreamExhausted,
    /// The beacon chain could not be reached or subscribed to.
    Connection,
    /// A frame could not be decoded.
    Decode(DecodeError),
    /// The round key or the validator set id could not be had.
    KeyResolution(KeyResolutionError),
    /// The raw bytes of a signature are no signature.
    SignatureFormat,
    /// A justification carries no signature at all.
    NoSignature,
    /// The caller handed over an event that the state was not waiting for.
    UnexpectedEvent,
}

/// Where the relay stands.
#[derive(Debug)]
pub enum State {
    /// No round key yet.
    Idle,
    /// The round key is resolved; the subscription is not open yet.
    KeyResolved { round_key: RoundPublicKey },
    /// Waiting for the next justification.
    Streaming { round_key: RoundPublicKey },
    /// One justification is being processed: its signature waits for the
    /// validator set id, or, once `submitted`, its pulse waits to be
    /// finalized.
    Verifying { round_key: RoundPublicKey, block_number: u32, signature: Vec<u8>, submitted: bool },
    /// The relay has stopped.
    Terminated { reason: Termination },
}

/// A state as plain values.
pub enum StateView {
    Idle,
    KeyResolved { round_key: Seq<u8> },
    Streaming { round_key: Seq<u8> },
    Verifying { round_key: Seq<u8>, block_number: u32, signature: Seq<u8>, submitted: bool },
    Terminated { reason: Termination },
}

impl View for State {
    type V = StateView;

    open spec fn view(&self) -> StateView {
        match self {
            State::Idle => StateView::Idle,
            State::KeyResolved { round_key } => StateView::KeyResolved { round_key: round_key@ },
            State::Streaming { round_key } => StateView::Streaming { round_key: round_key@ },
            State::Verifying {
                round_key,
                block_number,
                signature,
                submitted,
            } => StateView::Verifying {
                round_key: round_key@,
                block_number: *block_number,
                signature: signature@,
                submitted: *submitted,
            },
            State::Terminated { reason } => StateView::Terminated { reason: *reason },
        }
    }
}

/// What the caller reports.
#[derive(Debug)]
pub enum Event {
    /// The relay is to begin.
    Started,
    /// Connecting or subscribing to the beacon chain failed.
    ConnectionFailed,
    /// The chain's round key entry was read: its bytes, or nothing.
    RoundKey(Option<Vec<u8>>),
    /// The subscription to justifications is open.
    Subscribed,
    /// The subscription brought a frame.
    Frame(Vec<u8>),
    /// The subscription brought its last item.
    StreamEnded,
    /// The chain's validator set id was read: the id, or nothing.
    ValidatorSetId(Option<u64>),
    /// The submitted call ended.
    Published(TxOutcome),
}

/// An event as plain values.
pub enum EventView {
    Started,
    ConnectionFailed,
    RoundKey(Option<Seq<u8>>),
    Subscribed,
    Frame(Seq<u8>),
    StreamEnded,
    ValidatorSetId(Option<u64>),
    Published(TxOutcome),
}

impl View for Event {
    type V = EventView;

    open spec fn view(&self) -> EventView {
        match self {
            Event::Started => EventView::Started,
            Event::ConnectionFailed => EventView::ConnectionFailed,
            Event::RoundKey(Some(bytes)) => EventView::RoundKey(Some(bytes@)),
            Event::RoundKey(None) => EventView::RoundKey(None),
            Event::Subscribed => EventView::Subscribed,
            Event::Frame(frame) => EventView::Frame(frame@),
            Event::StreamEnded => EventView::StreamEnded,
            Event::ValidatorSetId(id) => EventView::ValidatorSetId(*id),
            Event::Published(outcome) => EventView::Published(*outcome),
        }
    }
}

/// What the caller is to do next.
#[derive(Debug)]
pub enum Action {
    /// Read the round key entry of the beacon chain.
    FetchRoundKey,
    /// Open the subscription to justifications.
    Subscribe,
    /// Wait for the next item of the subscription.
    NextFrame,
    /// Read the validator set id of the beacon chain.
    FetchValidatorSetId,
    /// Sign and submit the call, and wait until it is finalized.
    Submit(DestinationCall),
    /// Nothing more: the relay has stopped.
    Stop,
}

/// An action as plain values.
pub enum ActionView {
    FetchRoundKey,
    Subscribe,
    NextFrame,
    FetchValidatorSetId,
    Submit(DestinationCallView),
    Stop,
}

impl View for Action {
    type V = ActionView;

    open spec fn view(&self) -> ActionView {
        match self {
            Action::FetchRoundKey => ActionView::FetchRoundKey,
            Action::Subscribe => ActionView::Subscribe,
            Action::NextFrame => ActionView::NextFrame,
            Action::FetchValidatorSetId => ActionView::FetchValidatorSetId,
            Action::Submit(call) => ActionView::Submit(call@),
            Action::Stop => ActionView::Stop,
        }
    }
}

/// The commitment that the validators of set `validator_set_id` signed for
/// block `block_number`: one payload entry under the deployment's key, with
/// an empty blob.
pub open spec fn signed_commitment(config: Config, block_number: u32, validator_set_id: u64)
    -> CommitmentView {
    CommitmentView {
        payload: seq![PayloadEntryView { id: config.payload_id@, data: Seq::<u8>::empty() }],
        block_number,
        validator_set_id,
    }
}

/// Stopping for `reason`.
pub open spec fn stop(reason: Termination) -> (StateView, ActionView) {
    (StateView::Terminated { reason }, ActionView::Stop)
}

/// The step from `Idle`: begin by asking for the round key, and take the key
/// if the chain holds one that decodes.
pub open spec fn next_idle(event: EventView) -> (StateView, ActionView) {
    match event {
        EventView::Started => (StateView::Idle, ActionView::FetchRoundKey),
        EventView::ConnectionFailed => stop(Termination::Connection),
        EventView::RoundKey(None) => stop(
            Termination::KeyResolution(KeyResolutionError::KeyUnavailable),
        ),
        EventView::RoundKey(Some(bytes)) => if round_key_decodes(bytes) {
            (StateView::KeyResolved { round_key: bytes }, ActionView::Subscribe)
        } else {
            stop(Termination::KeyResolution(KeyResolutionError::KeyMalformed))
        },
        _ => stop(Termination::UnexpectedEvent),
    }
}

/// The step on a frame: decode it, pick the first signature present and
/// look at its form. Any failure here stops the relay.
pub open spec fn next_frame(round_key: Seq<u8>, frame: Seq<u8>) -> (StateView, ActionView) {
    match read_justification(frame) {
        Err(e) => stop(Termination::Decode(e)),
        Ok(message) => match first_present(message.signatures) {
            None => stop(Termination::NoSignature),
            Some(signature) => if signature_decodes(signature) {
                (
                    StateView::Verifying {
                        round_key,
                        block_number: message.commitment.block_number,
                        signature,
                        submitted: false,
                    },
                    ActionView::FetchValidatorSetId,
                )
            } else {
                stop(Termination::SignatureFormat)
            },
        },
    }
}

/// The step once the validator set id is known: check the signature against
/// the commitment it must have signed. Where it holds, submit the pulse;
/// where it does not, drop the justification and go on with the next.
pub open spec fn next_verified(
    config: Config,
    round_key: Seq<u8>,
    block_number: u32,
    signature: Seq<u8>,
    validator_set_id: u64,
) -> (StateView, ActionView) {
    if !signature_decodes(signature) {
        stop(Termination::SignatureFormat)
    } else if signature_holds(
        domain_tag(),
        commitment_bytes(signed_commitment(config, block_number, validator_set_id)),
        signature,
        round_key,
    ) {
        (
            StateView::Verifying { round_key, block_number, signature, submitted: true },
            ActionView::Submit(
                destination_call(config.target, block_number, compressed_signature(signature)),
            ),
        )
    } else {
        (StateView::Streaming { round_key }, ActionView::NextFrame)
    }
}

/// The state and the action that follow `state` on `event`.
pub open spec fn next(config: Config, state: StateView, event: EventView) -> (
    StateView,
    ActionView,
) {
    match state {
        StateView::Idle => next_idle(event),
        StateView::KeyResolved { round_key } => match event {
            EventView::Subscribed => (StateView::Streaming { round_key }, ActionView::NextFrame),
            EventView::ConnectionFailed => stop(Termination::Connection),
            _ => stop(Termination::UnexpectedEvent),
        },
        StateView::Streaming { round_key } => match event {
            EventView::Frame(frame) => next_frame(round_key, frame),
            EventView::StreamEnded => stop(Termination::StreamExhausted),
            _ => stop(Termination::UnexpectedEvent),
        },
        StateView::Verifying { round_key, block_number, signature, submitted } => if submitted {
            match event {
                EventView::Published(_) => (
                    StateView::Streaming { round_key },
                    ActionView::NextFrame,
                ),
                _ => stop(Termination::UnexpectedEvent),
            }
        } else {
            match event {
                EventView::ValidatorSetId(None) => stop(
                    Termination::KeyResolution(KeyResolutionError::StateUnavailable),
                ),
                EventView::ValidatorSetId(Some(id)) => next_verified(
                    config,
                    round_key,
                    block_number,
                    signature,
                    id,
                ),
                _ => stop(Termination::UnexpectedEvent),
            }
        },
        StateView::Terminated { reason } => stop(reason),
    }
}

/// The round key that a state holds, if it holds one.
pub open spec fn round_key_of(state: StateView) -> Option<Seq<u8>> {
    match state {
        StateView::KeyResolved { round_key } => Some(round_key),
        StateView::Streaming { round_key } => Some(round_key),
        StateView::Verifying { round_key, .. } => Some(round_key),
        _ => None,
    }
}

/// Nothing is submitted that was not verified: a call goes out only on the
/// validator set id, for the signature at hand, where that signature holds
/// for the commitment of its block and that validator set; and the call is
/// the one that publishes the signature for that block.
pub proof fn lemma_submit_only_verified(config: Config, state: StateView, event: EventView)
    requires
        next(config, state, event).1 is Submit,
    ensures
        state matches StateView::Verifying { round_key, block_number, signature, submitted }
            && event matches EventView::ValidatorSetId(Some(id)) && !submitted && signature_holds(
            domain_tag(),
            commitment_bytes(signed_commitment(config, block_number, id)),
            signature,
            round_key,
        ) && next(config, state, event).1->Submit_0 == destination_call(
            config.target,
            block_number,
            compressed_signature(signature),
        ),
{
}

/// One justification at a time: the next frame is asked for only in
/// `Streaming`, and while a call is in flight the relay waits for nothing
/// but its outcome.
pub proof fn lemma_strictly_sequential(config: Config, state: StateView, event: EventView)
    ensures
        next(config, state, event).1 is NextFrame ==> next(config, state, event).0 is Streaming,
        next(config, state, event).1 is Submit ==> (next(config, state, event).0 matches StateView::Verifying {
            submitted,
            ..
        } && submitted),
        (state matches StateView::Verifying { submitted, .. } && submitted) ==> (if event is Published {
            next(config, state, event).1 is NextFrame
        } else {
            next(config, state, event) == stop(Termination::UnexpectedEvent)
        }),
{
}

/// A relay that has stopped stays stopped, for the reason it stopped for.
pub proof fn lemma_terminated_stays(config: Config, reason: Termination, event: EventView)
    ensures
        next(config, StateView::Terminated { reason }, event) == stop(reason),
{
}

/// The round key is fixed once resolved: no step changes the key that a
/// state holds.
pub proof fn lemma_round_key_kept(config: Config, state: StateView, event: EventView)
    ensures
        round_key_of(state) is Some && round_key_of(next(config, state, event).0) is Some
            ==> round_key_of(next(config, state, event).0) == round_key_of(state),
{
}

/// The state of a relay together with what its deployment fixed.
#[derive(Debug)]
pub struct Coordinator {
    pub config: Config,
    pub state: State,
}

fn stopped(config: Config, reason: Termination) -> (r: (Coordinator, Action))
    ensures
        r.0.config == config,
        (r.0.state@, r.1@) == stop(reason),
{
    (Coordinator { config, state: State::Terminated { reason } }, Action::Stop)
}

impl Coordinator {
    /// A relay that has not begun.
    pub fn new(config: Config) -> (c: Coordinator)
        ensures
            c.config == config,
            c.state@ == StateView::Idle,
    {
        Coordinator { config, state: State::Idle }
    }

    /// Whether the relay has stopped.
    pub fn is_terminated(&self) -> (stopped: bool)
        ensures
            stopped == (self.state@ is Terminated),
    {
        match &self.state {
            State::Terminated { .. } => true,
            _ => false,
        }
    }

    /// Takes `event`, and gives the relay in its next state with the action
    /// to perform.
    pub fn step(self, event: Event) -> (r: (Coordinator, Action))
        ensures
            r.0.config == self.config,
            (r.0.state@, r.1@) == next(self.config, self.state@, event@),
    {
        let config = self.config;
        match self.state {
            State::Idle => match event {
                Event::Started => (Coordinator { config, state: State::Idle }, Action::FetchRoundKey),
                Event::ConnectionFailed => stopped(config, Termination::Connection),
                Event::RoundKey(None) => stopped(
                    config,
                    Termination::KeyResolution(KeyResolutionError::KeyUnavailable),
                ),
                Event::RoundKey(Some(bytes)) => match RoundPublicKey::from_bytes(bytes) {
                    Ok(round_key) => (
                        Coordinator { config, state: State::KeyResolved { round_key } },
                        Action::Subscribe,
                    ),
                    Err(e) => stopped(config, Termination::KeyResolution(e)),
                },
                _ => stopped(config, Termination::UnexpectedEvent),
            },
            State::KeyResolved { round_key } => match event {
                Event::Subscribed => (
                    Coordinator { config, state: State::Streaming { round_key } },
                    Action::NextFrame,
                ),
                Event::ConnectionFailed => stopped(config, Termination::Connection),
                _ => stopped(config, Termination::UnexpectedEvent),
            },
            State::Streaming { round_key } => match event {
                Event::Frame(frame) => on_frame(config, round_key, frame.as_slice()),
                Event::StreamEnded => stopped(config, Termination::StreamExhausted),
                _ => stopped(config, Termination::UnexpectedEvent),
            },
            State::Verifying { round_key, block_number, signature, submitted } => if submitted {
                match event {
                    Event::Published(_) => (
                        Coordinator { config, state: State::Streaming { round_key } },
                        Action::NextFrame,
                    ),
                    _ => stopped(config, Termination::UnexpectedEvent),
                }
            } else {
                match event {
                    Event::ValidatorSetId(None) => stopped(
                        config,
                        Termination::KeyResolution(KeyResolutionError::StateUnavailable),
                    ),
                    Event::ValidatorSetId(Some(id)) => on_validator_set(
                        config,
                        round_key,
                        block_number,
                        signature,
                        id,
                    ),
                    _ => stopped(config, Termination::UnexpectedEvent),
                }
            },
            State::Terminated { reason } => stopped(config, reason),
        }
    }
}

/// Decodes a frame and picks the signature to verify.
fn on_frame(config: Config, round_key: RoundPublicKey, frame: &[u8]) -> (r: (Coordinator, Action))
    ensures
        r.0.config == config,
        (r.0.state@, r.1@) == next_frame(round_key@, frame@),
{
    let message = match JustificationMessage::decode(frame) {
        Ok(message) => message,
        Err(e) => { return stopped(config, Termination::Decode(e)); },
    };
    let signature = match message.primary_signature() {
        Some(raw) => slice_to_vec(raw.as_slice()),
        None => { return stopped(config, Termination::NoSignature); },
    };
    if !is_signature(signature.as_slice()) {
        return stopped(config, Termination::SignatureFormat);
    }
    (
        Coordinator {
            config,
            state: State::Verifying {
                round_key,
                block_number: message.commitment.block_number,
                signature,
                submitted: false,
            },
        },
        Action::FetchValidatorSetId,
    )
}

/// Verifies the signature at hand against the commitment of the validator
/// set just read.
fn on_validator_set(
    config: Config,
    round_key: RoundPublicKey,
    block_number: u32,
    signature: Vec<u8>,
    validator_set_id: u64,
) -> (r: (Coordinator, Action))
    ensures
        r.0.config == config,
        (r.0.state@, r.1@) == next_verified(
            config,
            round_key@,
            block_number,
            signature@,
            validator_set_id,
        ),
{
    let commitment = Commitment {
        payload: Payload::from_single_entry(config.payload_id, Vec::new()),
        block_number,
        validator_set_id,
    };
    assert(commitment@ == signed_commitment(config, block_number, validator_set_id));
    match verified_pulse(&commitment, signature.as_slice(), &round_key) {
        Err(_) => stopped(config, Termination::SignatureFormat),
        Ok(None) => (
            Coordinator { config, state: State::Streaming { round_key } },
            Action::NextFrame,
        ),
        Ok(Some(pulse)) => {
            let call = publish(config.target, pulse.block_number, pulse.signature.as_slice());
            (
                Coordinator {
                    config,
                    state: State::Verifying { round_key, block_number, signature, submitted: true },
                },
                Action::Submit(call),
            )
        },
    }
}

} // verus!
