//! Writing justification frames: the packing of the validators' slots into a
//! presence field and the signatures present, as the beacon chain does it
//! before it sends a frame.

use crate::codec::{
    compact, lemma_read_compact, lemma_read_sized_bytes, lemma_read_u32_le, lemma_split_stretch,
    put_compact, put_sized_bytes, put_u32, sized_bytes, u32_le, DecodeError,
};
use crate::commitment::{commitment_bytes, lemma_read_commitment, payload_fits};
use crate::justification::{
    has_signed, raw_signatures, read_justification, signed_before, slots_view, unpack,
    JustificationMessage, JustificationView, VERSION_1,
};
use vstd::prelude::*;

verus! {

/// 1 where validator `i` has a slot with a signature in it, else 0.
pub open spec fn presence_bit(slots: Seq<Option<Seq<u8>>>, i: int) -> int {
    if 0 <= i < slots.len() && slots[i] is Some {
        1
    } else {
        0
    }
}

/// Byte `j` of the presence field: the bits of validators `8 * j` to
/// `8 * j + 7`, the first in the highest bit.
pub open spec fn presence_byte(slots: Seq<Option<Seq<u8>>>, j: int) -> u8 {
    (128 * presence_bit(slots, 8 * j) + 64 * presence_bit(slots, 8 * j + 1) + 32 * presence_bit(
        slots,
        8 * j + 2,
    ) + 16 * presence_bit(slots, 8 * j + 3) + 8 * presence_bit(slots, 8 * j + 4) + 4
        * presence_bit(slots, 8 * j + 5) + 2 * presence_bit(slots, 8 * j + 6) + presence_bit(
        slots,
        8 * j + 7,
    )) as u8
}

/// The presence field of the slots. It always ends with at least one unused
/// bit: eight slots take two bytes.
pub open spec fn presence_field(slots: Seq<Option<Seq<u8>>>) -> Seq<u8> {
    Seq::new((slots.len() / 8 + 1) as nat, |j: int| presence_byte(slots, j))
}

/// The signatures present, in the order of their validators.
pub open spec fn present(slots: Seq<Option<Seq<u8>>>) -> Seq<Seq<u8>>
    decreases slots.len(),
{
    if slots.len() == 0 {
        Seq::<Seq<u8>>::empty()
    } else {
        match slots.last() {
            Some(raw) => present(slots.drop_last()).push(raw),
            None => present(slots.drop_last()),
        }
    }
}

/// Raw signatures one behind the other.
pub open spec fn signatures_bytes(raws: Seq<Seq<u8>>) -> Seq<u8>
    decreases raws.len(),
{
    if raws.len() == 0 {
        Seq::<u8>::empty()
    } else {
        signatures_bytes(raws.drop_last()) + raws.last()
    }
}

/// A justification that a frame can hold: its payload fits, its validator
/// set has a 32-bit size and each signature has the length of a raw
/// signature.
pub open spec fn justification_fits(m: JustificationView) -> bool {
    &&& payload_fits(m.commitment.payload)
    &&& m.signatures.len() <= u32::MAX
    &&& forall|i: int|
        0 <= i < m.signatures.len() && m.signatures[i] is Some ==> (
        #[trigger] m.signatures[i])->Some_0.len() == 112
}

/// The frame of a justification: the version tag, the commitment, the
/// presence field behind its length, the size of the validator set, and the
/// signatures present behind their number.
pub open spec fn justification_bytes(m: JustificationView) -> Seq<u8> {
    seq![VERSION_1] + commitment_bytes(m.commitment) + sized_bytes(presence_field(m.signatures))
        + u32_le(m.signatures.len() as u32) + compact(present(m.signatures).len() as u32)
        + signatures_bytes(present(m.signatures))
}

/// The signatures present among the first `i + 1` slots are those among the
/// first `i`, and the one of slot `i` if it holds one.
pub proof fn lemma_present_step(slots: Seq<Option<Seq<u8>>>, i: int)
    requires
        0 <= i < slots.len(),
    ensures
        present(slots.take(i + 1)) == (match slots[i] {
            Some(raw) => present(slots.take(i)).push(raw),
            None => present(slots.take(i)),
        }),
{
    assert(slots.take(i + 1).drop_last() =~= slots.take(i));
    assert(slots.take(i + 1).last() == slots[i]);
}

/// No more signatures are present than there are slots.
pub proof fn lemma_present_len(slots: Seq<Option<Seq<u8>>>)
    ensures
        present(slots).len() <= slots.len(),
    decreases slots.len(),
{
    if slots.len() > 0 {
        lemma_present_len(slots.drop_last());
    }
}

/// 1 where slot `i` holds a signature, else 0.
fn bit_of(slots: &Vec<Option<Vec<u8>>>, i: usize) -> (bit: u8)
    ensures
        bit == presence_bit(slots_view(slots@), i as int),
{
    if i < slots.len() {
        match &slots[i] {
            Some(_) => 1,
            None => 0,
        }
    } else {
        0
    }
}

/// The presence field of `slots`.
fn pack_field(slots: &Vec<Option<Vec<u8>>>) -> (field: Vec<u8>)
    requires
        slots@.len() <= u32::MAX,
    ensures
        field@ == presence_field(slots_view(slots@)),
{
    let ghost view = slots_view(slots@);
    let bytes: usize = slots.len() / 8 + 1;
    let mut field: Vec<u8> = Vec::new();
    let mut j: usize = 0;
    while j < bytes
        invariant
            j <= bytes,
            bytes == slots@.len() / 8 + 1,
            slots@.len() <= u32::MAX,
            view == slots_view(slots@),
            field@.len() == j,
            forall|k: int| 0 <= k < j ==> field@[k] == presence_byte(view, k),
        decreases bytes - j,
    {
        let at: usize = 8 * j;
        let byte: u8 = 128 * bit_of(slots, at) + 64 * bit_of(slots, at + 1) + 32 * bit_of(
            slots,
            at + 2,
        ) + 16 * bit_of(slots, at + 3) + 8 * bit_of(slots, at + 4) + 4 * bit_of(slots, at + 5) + 2
            * bit_of(slots, at + 6) + bit_of(slots, at + 7);
        field.push(byte);
        j = j + 1;
    }
    assert(field@ =~= presence_field(view));
    field
}

impl JustificationMessage {
    /// The frame of the justification, in version 1.
    pub fn encode(&self) -> (out: Vec<u8>)
        requires
            justification_fits(self@),
        ensures
            out@ == justification_bytes(self@),
    {
        let ghost slots = self@.signatures;
        let mut out: Vec<u8> = Vec::new();
        out.push(VERSION_1);
        let commitment = self.commitment.encode();
        out.extend_from_slice(commitment.as_slice());
        let field = pack_field(&self.signatures);
        put_sized_bytes(&mut out, field.as_slice());
        put_u32(&mut out, self.signatures.len() as u32);
        let ghost head = out@;
        assert(head =~= seq![VERSION_1] + commitment_bytes(self@.commitment) + sized_bytes(
            presence_field(slots),
        ) + u32_le(slots.len() as u32));

        let total: usize = self.signatures.len();
        let mut count: u32 = 0;
        let mut i: usize = 0;
        while i < total
            invariant
                i <= total,
                total == self.signatures@.len(),
                total <= u32::MAX,
                slots == slots_view(self.signatures@),
                count == present(slots.take(i as int)).len(),
                count <= i,
            decreases total - i,
        {
            proof {
                lemma_present_step(slots, i as int);
            }
            match &self.signatures[i] {
                Some(_) => {
                    count = count + 1;
                },
                None => {},
            }
            i = i + 1;
        }
        assert(slots.take(total as int) =~= slots);
        put_compact(&mut out, count);
        let ghost counted = out@;

        let mut i: usize = 0;
        while i < total
            invariant
                i <= total,
                total == self.signatures@.len(),
                slots == slots_view(self.signatures@),
                out@ == counted + signatures_bytes(present(slots.take(i as int))),
            decreases total - i,
        {
            proof {
                lemma_present_step(slots, i as int);
            }
            match &self.signatures[i] {
                Some(raw) => {
                    let ghost before = present(slots.take(i as int));
                    assert(before.push(raw@).drop_last() =~= before);
                    out.extend_from_slice(raw.as_slice());
                },
                None => {},
            }
            i = i + 1;
        }
        assert(out@ =~= justification_bytes(self@));
        out
    }
}

/// The signatures present among the first `n` slots stand at the front of
/// those present among all.
pub proof fn lemma_present_prefix(slots: Seq<Option<Seq<u8>>>, n: int)
    requires
        0 <= n <= slots.len(),
    ensures
        present(slots.take(n)).len() <= present(slots).len(),
        forall|k: int|
            0 <= k < present(slots.take(n)).len() ==> present(slots.take(n))[k] == present(slots)[k],
    decreases slots.len(),
{
    if n == slots.len() {
        assert(slots.take(n) =~= slots);
    } else {
        let front = slots.drop_last();
        assert(slots.take(n) =~= front.take(n));
        lemma_present_prefix(front, n);
    }
}

/// Each signature present has the length that its slot gave it.
pub proof fn lemma_present_sized(slots: Seq<Option<Seq<u8>>>)
    requires
        forall|i: int|
            0 <= i < slots.len() && slots[i] is Some ==> (#[trigger] slots[i])->Some_0.len() == 112,
    ensures
        forall|k: int| 0 <= k < present(slots).len() ==> (#[trigger] present(slots)[k]).len() == 112,
    decreases slots.len(),
{
    if slots.len() > 0 {
        let front = slots.drop_last();
        assert forall|i: int| 0 <= i < front.len() && front[i] is Some implies (
        #[trigger] front[i])->Some_0.len() == 112 by {
            assert(front[i] == slots[i]);
        }
        lemma_present_sized(front);
        let last = slots[slots.len() - 1];
        assert(slots.last() == last);
        assert forall|k: int| 0 <= k < present(slots).len() implies (#[trigger] present(
            slots,
        )[k]).len() == 112 by {
            if k < present(front).len() {
                assert(present(slots)[k] == present(front)[k]);
            } else {
                assert(last is Some);
                assert(present(slots)[k] == last->Some_0);
            }
        }
    }
}

/// Raw signatures of 112 bytes each, written one behind the other, stand at
/// the multiples of 112.
pub proof fn lemma_signatures_bytes_chunks(raws: Seq<Seq<u8>>)
    requires
        forall|k: int| 0 <= k < raws.len() ==> (#[trigger] raws[k]).len() == 112,
    ensures
        signatures_bytes(raws).len() == 112 * raws.len(),
        forall|k: int|
            0 <= k < raws.len() ==> #[trigger] signatures_bytes(raws).subrange(
                112 * k,
                112 * k + 112,
            ) == raws[k],
    decreases raws.len(),
{
    if raws.len() > 0 {
        let front = raws.drop_last();
        lemma_signatures_bytes_chunks(front);
        let all = signatures_bytes(raws);
        assert forall|k: int| 0 <= k < raws.len() implies #[trigger] all.subrange(
            112 * k,
            112 * k + 112,
        ) == raws[k] by {
            if k < front.len() {
                assert(front[k] == raws[k]);
                assert(all.subrange(112 * k, 112 * k + 112) =~= signatures_bytes(front).subrange(
                    112 * k,
                    112 * k + 112,
                ));
            } else {
                assert(all.subrange(112 * k, 112 * k + 112) =~= raws.last());
            }
        }
    }
}

/// A bit of the presence field is set exactly where the validator's slot
/// holds a signature.
pub proof fn lemma_presence_read(slots: Seq<Option<Seq<u8>>>, i: int)
    requires
        0 <= i < 8 * (slots.len() / 8 + 1),
    ensures
        has_signed(presence_field(slots), i) == (presence_bit(slots, i) == 1),
{
    let j = i / 8;
    let k = i % 8;
    let b0 = presence_bit(slots, 8 * j);
    let b1 = presence_bit(slots, 8 * j + 1);
    let b2 = presence_bit(slots, 8 * j + 2);
    let b3 = presence_bit(slots, 8 * j + 3);
    let b4 = presence_bit(slots, 8 * j + 4);
    let b5 = presence_bit(slots, 8 * j + 5);
    let b6 = presence_bit(slots, 8 * j + 6);
    let b7 = presence_bit(slots, 8 * j + 7);
    let byte: int = 128 * b0 + 64 * b1 + 32 * b2 + 16 * b3 + 8 * b4 + 4 * b5 + 2 * b6 + b7;
    assert(0 <= byte < 256);
    assert(presence_field(slots)[j] == byte);
    assert(i == 8 * j + k);
    lemma_bits_of_byte(b0, b1, b2, b3, b4, b5, b6, b7);
}

/// The bits of a byte are its digits in base two.
proof fn lemma_bits_of_byte(b0: int, b1: int, b2: int, b3: int, b4: int, b5: int, b6: int, b7: int)
    requires
        0 <= b0 <= 1,
        0 <= b1 <= 1,
        0 <= b2 <= 1,
        0 <= b3 <= 1,
        0 <= b4 <= 1,
        0 <= b5 <= 1,
        0 <= b6 <= 1,
        0 <= b7 <= 1,
    ensures
        ({
            let byte = 128 * b0 + 64 * b1 + 32 * b2 + 16 * b3 + 8 * b4 + 4 * b5 + 2 * b6 + b7;
            &&& (byte / 128) % 2 == b0
            &&& (byte / 64) % 2 == b1
            &&& (byte / 32) % 2 == b2
            &&& (byte / 16) % 2 == b3
            &&& (byte / 8) % 2 == b4
            &&& (byte / 4) % 2 == b5
            &&& (byte / 2) % 2 == b6
            &&& (byte / 1) % 2 == b7
        }),
{
}

/// As many bits are set before a validator as there are signatures present
/// before it.
pub proof fn lemma_signed_before_present(slots: Seq<Option<Seq<u8>>>, i: int)
    requires
        0 <= i <= slots.len(),
    ensures
        signed_before(presence_field(slots), i) == present(slots.take(i)).len(),
    decreases i,
{
    if i == 0 {
        assert(slots.take(0) =~= Seq::<Option<Seq<u8>>>::empty());
    } else {
        lemma_signed_before_present(slots, i - 1);
        lemma_presence_read(slots, i - 1);
        lemma_present_step(slots, i - 1);
    }
}

/// Spreading the packed signatures over the slots gives the slots back.
pub proof fn lemma_unpack_packed(slots: Seq<Option<Seq<u8>>>)
    requires
        slots.len() <= u32::MAX,
    ensures
        unpack(presence_field(slots), slots.len() as u32, present(slots)) == slots,
{
    let field = presence_field(slots);
    let back = unpack(field, slots.len() as u32, present(slots));
    assert(back.len() == slots.len());
    assert forall|i: int| 0 <= i < slots.len() implies back[i] == slots[i] by {
        lemma_presence_read(slots, i);
        lemma_signed_before_present(slots, i);
        lemma_present_prefix(slots, i + 1);
        lemma_present_step(slots, i);
        if slots[i] is Some {
            let n = present(slots.take(i)).len() as int;
            assert(present(slots.take(i + 1))[n] == slots[i]->Some_0);
        }
    }
    assert(back =~= slots);
}

/// A frame reads back as the justification it was written from. Bytes
/// behind the frame do not matter.
pub proof fn lemma_read_justification(m: JustificationView, s: Seq<u8>)
    requires
        justification_fits(m),
        justification_bytes(m).len() <= s.len(),
        s.subrange(0, justification_bytes(m).len() as int) == justification_bytes(m),
    ensures
        read_justification(s) == Ok::<JustificationView, DecodeError>(m),
{
    let slots = m.signatures;
    let c = commitment_bytes(m.commitment);
    let field = presence_field(slots);
    let raws = present(slots);
    let tag = seq![VERSION_1];
    let f = sized_bytes(field);
    let n = u32_le(slots.len() as u32);
    let k = compact(raws.len() as u32);
    let tail = signatures_bytes(raws);
    lemma_present_len(slots);
    lemma_present_sized(slots);
    lemma_signatures_bytes_chunks(raws);
    lemma_split_stretch(s, 0, tag + c + f + n + k, tail);
    lemma_split_stretch(s, 0, tag + c + f + n, k);
    lemma_split_stretch(s, 0, tag + c + f, n);
    lemma_split_stretch(s, 0, tag + c, f);
    lemma_split_stretch(s, 0, tag, c);
    assert(s[0] == s.subrange(0, 1)[0]);
    lemma_read_commitment(m.commitment, s, 1);
    let field_at: int = 1 + c.len() as int;
    lemma_read_sized_bytes(field, s, field_at);
    let set_len_at: int = field_at + f.len() as int;
    lemma_read_u32_le(slots.len() as u32, s, set_len_at);
    lemma_read_compact(raws.len() as u32, s, set_len_at + 4);
    let start: int = set_len_at + 4 + k.len() as int;
    assert(raw_signatures(s, start, raws.len() as int) =~= raws) by {
        assert forall|i: int| 0 <= i < raws.len() implies raw_signatures(
            s,
            start,
            raws.len() as int,
        )[i] == raws[i] by {
            assert(tail.subrange(112 * i, 112 * i + 112) == raws[i]);
            assert(s.subrange(start + 112 * i, start + 112 * i + 112) =~= s.subrange(
                start,
                start + tail.len(),
            ).subrange(112 * i, 112 * i + 112));
        }
    }
    lemma_unpack_packed(slots);
}

} // verus!
