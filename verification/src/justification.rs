//! Justification frames: the versioned envelope in which the beacon chain
//! hands out a commitment with the signatures of its validators.

use crate::codec::{
    get_compact, get_sized_bytes, get_u32, le_u32_at, lemma_write_sized_bytes, read_compact,
    read_sized_bytes, DecodeError,
};
use crate::commitment::{
    commitment_bytes, lemma_write_commitment, payload_fits, read_commitment, Commitment,
    CommitmentView,
};
use vstd::prelude::*;
use vstd::slice::{slice_subrange, slice_to_vec};

verus! {

/// The version tag of the one envelope this crate understands.
pub const VERSION_1: u8 = 1;

/// The number of bytes of one raw signature in a frame.
pub const SIGNATURE_LEN: usize = 112;

/// A decoded justification: a commitment and, for each validator of the set
/// by its position, the raw signature it gave, if it gave one.
#[derive(Debug)]
pub struct JustificationMessage {
    pub commitment: Commitment,
    pub signatures: Vec<Option<Vec<u8>>>,
}

/// A justification as plain values.
pub struct JustificationView {
    pub commitment: CommitmentView,
    pub signatures: Seq<Option<Seq<u8>>>,
}

/// One validator's slot as plain values.
pub open spec fn slot_view(slot: Option<Vec<u8>>) -> Option<Seq<u8>> {
    match slot {
        Some(raw) => Some(raw@),
        None => None,
    }
}

/// The slots of a justification as plain values.
pub open spec fn slots_view(slots: Seq<Option<Vec<u8>>>) -> Seq<Option<Seq<u8>>> {
    Seq::new(slots.len(), |i: int| slot_view(slots[i]))
}

impl View for JustificationMessage {
    type V = JustificationView;

    open spec fn view(&self) -> JustificationView {
        JustificationView {
            commitment: self.commitment@,
            signatures: slots_view(self.signatures@),
        }
    }
}

/// The value of bit `k` of a byte, counted from the highest: 128 for bit 0,
/// 1 for bit 7.
pub open spec fn bit_value(k: int) -> int {
    if k == 0 {
        128
    } else if k == 1 {
        64
    } else if k == 2 {
        32
    } else if k == 3 {
        16
    } else if k == 4 {
        8
    } else if k == 5 {
        4
    } else if k == 6 {
        2
    } else {
        1
    }
}

/// Whether the presence bit of validator `i` is set. Each byte of the field
/// holds eight validators, the first in its highest bit.
pub open spec fn has_signed(field: Seq<u8>, i: int) -> bool {
    (field[i / 8] as int / bit_value(i % 8)) % 2 == 1
}

/// The number of validators before position `i` whose presence bit is set.
pub open spec fn signed_before(field: Seq<u8>, i: int) -> int
    decreases i,
{
    if i <= 0 {
        0
    } else {
        signed_before(field, i - 1) + (if has_signed(field, i - 1) {
            1int
        } else {
            0int
        })
    }
}

/// The raw signatures that stand one behind the other from `start` on.
pub open spec fn raw_signatures(s: Seq<u8>, start: int, count: int) -> Seq<Seq<u8>> {
    Seq::new(
        count as nat,
        |k: int| s.subrange(start + SIGNATURE_LEN * k, start + SIGNATURE_LEN * k + SIGNATURE_LEN),
    )
}

/// The number of slots that a presence field of `field_len` bytes gives to a
/// validator set of `set_len`: one for each validator that the field has a
/// bit for.
pub open spec fn slot_count(field_len: int, set_len: int) -> int {
    if set_len <= 8 * field_len {
        set_len
    } else {
        8 * field_len
    }
}

/// Spreads the signatures present over the validators' slots: the n-th set
/// bit takes the n-th signature, as long as there is one.
pub open spec fn unpack(field: Seq<u8>, set_len: u32, present: Seq<Seq<u8>>) -> Seq<
    Option<Seq<u8>>,
> {
    Seq::new(
        slot_count(field.len() as int, set_len as int) as nat,
        |i: int|
            if has_signed(field, i) && signed_before(field, i) < present.len() {
                Some(present[signed_before(field, i)])
            } else {
                None
            },
    )
}

/// Reads a frame: the version tag, the commitment, the presence field, the
/// size of the validator set and the signatures present. Bytes behind the
/// last signature are not looked at.
pub open spec fn read_justification(s: Seq<u8>) -> Result<JustificationView, DecodeError> {
    if s.len() == 0 {
        Err(DecodeError::UnexpectedEnd)
    } else if s[0] != VERSION_1 {
        Err(DecodeError::UnknownVersion)
    } else {
        match read_commitment(s, 1) {
            Err(e) => Err(e),
            Ok((commitment, field_at)) => match read_sized_bytes(s, field_at) {
                Err(e) => Err(e),
                Ok((field, set_len_at)) => if set_len_at + 4 > s.len() {
                    Err(DecodeError::UnexpectedEnd)
                } else {
                    match read_compact(s, set_len_at + 4) {
                        Err(e) => Err(e),
                        Ok((count, start)) => if start + SIGNATURE_LEN * count > s.len() {
                            Err(DecodeError::UnexpectedEnd)
                        } else {
                            Ok(
                                JustificationView {
                                    commitment,
                                    signatures: unpack(
                                        field,
                                        le_u32_at(s, set_len_at) as u32,
                                        raw_signatures(s, start, count as int),
                                    ),
                                },
                            )
                        },
                    }
                },
            },
        }
    }
}

/// The first signature present, by validator position.
pub open spec fn first_present(slots: Seq<Option<Seq<u8>>>) -> Option<Seq<u8>>
    decreases slots.len(),
{
    if slots.len() == 0 {
        None
    } else if slots[0] is Some {
        slots[0]
    } else {
        first_present(slots.skip(1))
    }
}

/// The value of bit `k` of a byte, counted from the highest.
fn bit_weight(k: usize) -> (w: u8)
    requires
        k < 8,
    ensures
        w == bit_value(k as int),
{
    if k == 0 {
        128
    } else if k == 1 {
        64
    } else if k == 2 {
        32
    } else if k == 3 {
        16
    } else if k == 4 {
        8
    } else if k == 5 {
        4
    } else if k == 6 {
        2
    } else {
        1
    }
}

/// No more bits are set before a position than there are positions.
proof fn lemma_signed_before_bound(field: Seq<u8>, i: int)
    requires
        0 <= i,
    ensures
        0 <= signed_before(field, i) <= i,
    decreases i,
{
    if i > 0 {
        lemma_signed_before_bound(field, i - 1);
    }
}

/// Spreads the signatures that stand from `start` on over the slots of the
/// validators.
fn unpack_slots(s: &[u8], field: &Vec<u8>, set_len: u32, start: usize, count: u32) -> (slots: Vec<
    Option<Vec<u8>>,
>)
    requires
        start + SIGNATURE_LEN * count <= s@.len(),
    ensures
        slots_view(slots@) == unpack(field@, set_len, raw_signatures(s@, start as int, count as int)),
{
    let ghost present = raw_signatures(s@, start as int, count as int);
    let mut slots: Vec<Option<Vec<u8>>> = Vec::new();
    let total: usize = if field.len() <= (set_len / 8) as usize {
        field.len() * 8
    } else {
        set_len as usize
    };
    assert(total == slot_count(field@.len() as int, set_len as int));
    let mut taken: usize = 0;
    let mut i: usize = 0;
    assert(s@.len() == s.len());
    while i < total
        invariant
            i <= total,
            total <= 8 * field@.len(),
            total == slot_count(field@.len() as int, set_len as int),
            start + 112 * count <= s@.len() <= usize::MAX,
            present == raw_signatures(s@, start as int, count as int),
            taken == signed_before(field@, i as int),
            taken <= i,
            slots@.len() == i,
            forall|j: int|
                0 <= j < i ==> slot_view(#[trigger] slots@[j]) == unpack(field@, set_len, present)[j],
        decreases total - i,
    {
        let bit: u8 = (field[i / 8] / bit_weight(i % 8)) % 2;
        proof {
            lemma_signed_before_bound(field@, i as int);
        }
        if bit == 1 {
            if taken < count as usize {
                let from: usize = start + 112 * taken;
                let raw = slice_to_vec(slice_subrange(s, from, from + SIGNATURE_LEN));
                assert(raw@ == present[taken as int]);
                slots.push(Some(raw));
            } else {
                slots.push(None);
            }
            taken = taken + 1;
        } else {
            slots.push(None);
        }
        i = i + 1;
    }
    assert(slots_view(slots@) =~= unpack(field@, set_len, present));
    slots
}

impl JustificationMessage {
    /// Decodes a frame. Only version 1 is understood; a frame of another
    /// version, one that ends early or one with a length that is not in its
    /// shortest form is refused.
    pub fn decode(frame: &[u8]) -> (r: Result<JustificationMessage, DecodeError>)
        ensures
            r is Ok <==> read_justification(frame@) is Ok,
            r is Ok ==> r->Ok_0@ == read_justification(frame@)->Ok_0,
            r is Err ==> r->Err_0 == read_justification(frame@)->Err_0,
    {
        if frame.len() == 0 {
            return Err(DecodeError::UnexpectedEnd);
        }
        if frame[0] != VERSION_1 {
            return Err(DecodeError::UnknownVersion);
        }
        let (commitment, field_at) = match Commitment::decode_at(frame, 1) {
            Ok(found) => found,
            Err(e) => { return Err(e); },
        };
        let (field, set_len_at) = match get_sized_bytes(frame, field_at) {
            Ok(found) => found,
            Err(e) => { return Err(e); },
        };
        let (set_len, count_at) = match get_u32(frame, set_len_at) {
            Ok(found) => found,
            Err(e) => { return Err(e); },
        };
        let (count, start) = match get_compact(frame, count_at) {
            Ok(found) => found,
            Err(e) => { return Err(e); },
        };
        if ((frame.len() - start) as u64) < (SIGNATURE_LEN as u64) * (count as u64) {
            return Err(DecodeError::UnexpectedEnd);
        }
        let signatures = unpack_slots(frame, &field, set_len, start, count);
        Ok(JustificationMessage { commitment, signatures })
    }
}

/// Decoding loses nothing of the commitment: a frame that decodes holds,
/// behind its version tag, the canonical bytes of the commitment it decodes
/// to, so encoding that commitment gives those bytes of the frame back.
pub proof fn lemma_decode_keeps_commitment(frame: Seq<u8>)
    requires
        read_justification(frame) is Ok,
    ensures
        frame[0] == VERSION_1,
        payload_fits(read_justification(frame)->Ok_0.commitment.payload),
        1 + commitment_bytes(read_justification(frame)->Ok_0.commitment).len() <= frame.len(),
        frame.subrange(
            1,
            1 + commitment_bytes(read_justification(frame)->Ok_0.commitment).len() as int,
        ) == commitment_bytes(read_justification(frame)->Ok_0.commitment),
{
    lemma_write_commitment(frame, 1);
}

/// Where the slots before `i` are empty and slot `i` is not, slot `i` holds
/// the first signature present.
pub proof fn lemma_first_present_at(slots: Seq<Option<Seq<u8>>>, i: int)
    requires
        0 <= i < slots.len(),
        slots[i] is Some,
        forall|j: int| 0 <= j < i ==> slots[j] is None,
    ensures
        first_present(slots) == slots[i],
    decreases i,
{
    if i > 0 {
        let rest = slots.skip(1);
        assert(rest[i - 1] == slots[i]);
        assert forall|j: int| 0 <= j < i - 1 implies rest[j] is None by {
            assert(rest[j] == slots[j + 1]);
        }
        lemma_first_present_at(rest, i - 1);
    }
}

/// Where every slot is empty, no signature is present.
pub proof fn lemma_first_present_none(slots: Seq<Option<Seq<u8>>>)
    requires
        forall|j: int| 0 <= j < slots.len() ==> slots[j] is None,
    ensures
        first_present(slots) is None,
    decreases slots.len(),
{
    if slots.len() > 0 {
        let rest = slots.skip(1);
        assert forall|j: int| 0 <= j < rest.len() implies rest[j] is None by {
            assert(rest[j] == slots[j + 1]);
        }
        lemma_first_present_none(rest);
    }
}

impl JustificationMessage {
    /// The signature to verify: the first one present, by validator position.
    /// This stands in for an aggregation over all of them.
    pub fn primary_signature(&self) -> (r: Option<&Vec<u8>>)
        ensures
            r is Some <==> first_present(self@.signatures) is Some,
            r is Some ==> r->Some_0@ == first_present(self@.signatures)->Some_0,
    {
        let mut i: usize = 0;
        while i < self.signatures.len()
            invariant
                i <= self.signatures@.len(),
                forall|j: int| 0 <= j < i ==> self@.signatures[j] is None,
            decreases self.signatures@.len() - i,
        {
            match &self.signatures[i] {
                Some(raw) => {
                    proof {
                        assert(self@.signatures[i as int] == Some(raw@));
                        lemma_first_present_at(self@.signatures, i as int);
                    }
                    return Some(raw);
                },
                None => {
                    assert(self@.signatures[i as int] is None);
                },
            }
            i = i + 1;
        }
        proof {
            lemma_first_present_none(self@.signatures);
        }
        None
    }
}

} // verus!
