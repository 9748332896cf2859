//! The call that publishes a pulse on the destination chain, in either of
//! the two forms a deployment can choose.

use crate::codec::{put_sized_bytes, put_u32, sized_bytes, u32_le};
use crate::hashing::{blake2_256, blake2_256_digest};
use vstd::prelude::*;
use vstd::slice::slice_to_vec;

verus! {

/// The longest signature whose text still has a 32-bit length.
pub const MAX_SIGNATURE_LEN: usize = 0x7fff_fffe;

/// How a deployment writes to the destination chain.
#[derive(Clone, Copy, Debug, PartialEq, Eq, Structural)]
pub enum DestinationCallTarget {
    /// A generic call of the registry contract.
    Contract,
    /// The chain's own call `write_pulse`.
    Pallet,
}

/// A call, ready to be signed and submitted.
#[derive(Debug)]
pub enum DestinationCall {
    /// Call data for the registry contract's `write_block`.
    Contract { data: Vec<u8> },
    /// The arguments of `write_pulse`.
    WritePulse { signatures: Vec<Vec<u8>>, block_number: u32 },
}

/// A call as plain values.
pub enum DestinationCallView {
    Contract { data: Seq<u8> },
    WritePulse { signatures: Seq<Seq<u8>>, block_number: u32 },
}

impl View for DestinationCall {
    type V = DestinationCallView;

    open spec fn view(&self) -> DestinationCallView {
        match self {
            DestinationCall::Contract { data } => DestinationCallView::Contract { data: data@ },
            DestinationCall::WritePulse {
                signatures,
                block_number,
            } => DestinationCallView::WritePulse {
                signatures: Seq::new(signatures@.len(), |i: int| signatures@[i]@),
                block_number: *block_number,
            },
        }
    }
}

/// The name of the registry's method, in ASCII: `write_block`.
pub open spec fn write_block_name() -> Seq<u8> {
    seq![119u8, 114u8, 105u8, 116u8, 101u8, 95u8, 98u8, 108u8, 111u8, 99u8, 107u8]
}

/// The selector of a contract method: the first four bytes of the digest of
/// its name.
pub open spec fn selector(name: Seq<u8>) -> Seq<u8> {
    blake2_256_digest(name).subrange(0, 4)
}

/// The ASCII digit, `0` to `9` or `a` to `f`, of a number below 16.
pub open spec fn hex_digit(n: int) -> u8 {
    if n < 10 {
        (48 + n) as u8
    } else {
        (87 + n) as u8
    }
}

/// The `i`-th hex digit of `bytes`: the high half of a byte, then the low.
pub open spec fn hex_at(bytes: Seq<u8>, i: int) -> u8 {
    if i % 2 == 0 {
        hex_digit(bytes[i / 2] as int / 16)
    } else {
        hex_digit(bytes[i / 2] as int % 16)
    }
}

/// `bytes` as text: `0x`, then two lower-case hex digits for each byte.
pub open spec fn hex_text(bytes: Seq<u8>) -> Seq<u8> {
    seq![48u8, 120u8] + Seq::new(2 * bytes.len(), |i: int| hex_at(bytes, i))
}

/// The call data of `write_block(block_number, signature)`: the selector,
/// the block number little-endian, and the signature as text behind its
/// compact length.
pub open spec fn contract_call_data(block_number: u32, signature: Seq<u8>) -> Seq<u8> {
    selector(write_block_name()) + u32_le(block_number) + sized_bytes(hex_text(signature))
}

/// The call that publishes `signature` for `block_number` in the form that
/// `target` asks for. The chain's own call takes the signature as the one
/// element of a list.
pub open spec fn destination_call(
    target: DestinationCallTarget,
    block_number: u32,
    signature: Seq<u8>,
) -> DestinationCallView {
    match target {
        DestinationCallTarget::Contract => DestinationCallView::Contract {
            data: contract_call_data(block_number, signature),
        },
        DestinationCallTarget::Pallet => DestinationCallView::WritePulse {
            signatures: seq![signature],
            block_number,
        },
    }
}

/// The ASCII digit of a number below 16.
fn hex_char(n: u8) -> (c: u8)
    requires
        n < 16,
    ensures
        c == hex_digit(n as int),
{
    if n < 10 {
        48 + n
    } else {
        87 + n
    }
}

/// `bytes` as text: `0x`, then two lower-case hex digits for each byte.
pub fn to_hex_text(bytes: &[u8]) -> (text: Vec<u8>)
    ensures
        text@ == hex_text(bytes@),
{
    let mut text: Vec<u8> = Vec::new();
    text.push(48u8);
    text.push(120u8);
    let mut i: usize = 0;
    while i < bytes.len()
        invariant
            i <= bytes@.len(),
            text@.len() == 2 + 2 * i,
            text@[0] == 48u8,
            text@[1] == 120u8,
            forall|j: int| 0 <= j < 2 * i ==> text@[2 + j] == hex_at(bytes@, j),
        decreases bytes@.len() - i,
    {
        let b: u8 = bytes[i];
        text.push(hex_char(b / 16));
        text.push(hex_char(b % 16));
        i = i + 1;
    }
    assert(text@ =~= hex_text(bytes@));
    text
}

/// The selector of the method called `name`.
pub fn method_selector(name: &[u8]) -> (sel: [u8; 4])
    ensures
        sel@ == selector(name@),
{
    let digest = blake2_256(name);
    let sel: [u8; 4] = [digest[0], digest[1], digest[2], digest[3]];
    assert(sel@ =~= selector(name@));
    sel
}

/// Builds the call that publishes `signature_bytes` for `block_number`.
pub fn publish(target: DestinationCallTarget, block_number: u32, signature_bytes: &[u8]) -> (call:
    DestinationCall)
    requires
        signature_bytes@.len() <= MAX_SIGNATURE_LEN,
    ensures
        call@ == destination_call(target, block_number, signature_bytes@),
{
    match target {
        DestinationCallTarget::Contract => {
            let name: Vec<u8> = vec![119u8, 114u8, 105u8, 116u8, 101u8, 95u8, 98u8, 108u8, 111u8, 99u8, 107u8];
            assert(name@ =~= write_block_name());
            let sel = method_selector(name.as_slice());
            let mut data: Vec<u8> = Vec::new();
            data.push(sel[0]);
            data.push(sel[1]);
            data.push(sel[2]);
            data.push(sel[3]);
            assert(data@ =~= selector(write_block_name()));
            put_u32(&mut data, block_number);
            let text = to_hex_text(signature_bytes);
            put_sized_bytes(&mut data, text.as_slice());
            DestinationCall::Contract { data }
        },
        DestinationCallTarget::Pallet => {
            let mut signatures: Vec<Vec<u8>> = Vec::new();
            signatures.push(slice_to_vec(signature_bytes));
            let call = DestinationCall::WritePulse { signatures, block_number };
            assert(call@->WritePulse_signatures =~= seq![signature_bytes@]);
            call
        },
    }
}

} // verus!
