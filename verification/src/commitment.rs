//! Commitments: what validators sign to certify that a block is final, and
//! the canonical bytes of one.

use crate::codec::{
    lemma_join_stretches, lemma_read_compact, lemma_read_sized_bytes, lemma_read_u32_le,
    lemma_read_u64_le, lemma_split_stretch, lemma_write_compact, lemma_write_sized_bytes,
    lemma_write_u32_le, lemma_write_u64_le,
    get_compact, get_sized_bytes, get_u32, get_u64, put_compact, put_sized_bytes, put_u32, put_u64,
    compact, le_u32_at, le_u64_at, read_compact, read_sized_bytes, sized_bytes, u32_le, u64_le,
    DecodeError,
};
use vstd::prelude::*;

verus! {

/// One keyed blob of a commitment's payload.
#[derive(Debug)]
pub struct PayloadEntry {
    /// The two-byte key that says what the blob is.
    pub id: [u8; 2],
    /// The blob.
    pub data: Vec<u8>,
}

/// A payload entry as plain values.
pub struct PayloadEntryView {
    pub id: Seq<u8>,
    pub data: Seq<u8>,
}

impl View for PayloadEntry {
    type V = PayloadEntryView;

    open spec fn view(&self) -> PayloadEntryView {
        PayloadEntryView { id: self.id@, data: self.data@ }
    }
}

/// The payload of a commitment: keyed blobs, in the order they are encoded.
#[derive(Debug)]
pub struct Payload {
    pub entries: Vec<PayloadEntry>,
}

impl View for Payload {
    type V = Seq<PayloadEntryView>;

    open spec fn view(&self) -> Seq<PayloadEntryView> {
        entries_view(self.entries@)
    }
}

/// The entries of a payload as plain values.
pub open spec fn entries_view(entries: Seq<PayloadEntry>) -> Seq<PayloadEntryView> {
    Seq::new(entries.len(), |i: int| entries[i]@)
}

/// What validators sign: a payload, the block it speaks of and the validator
/// set that signs.
#[derive(Debug)]
pub struct Commitment {
    pub payload: Payload,
    pub block_number: u32,
    pub validator_set_id: u64,
}

/// A commitment as plain values.
pub struct CommitmentView {
    pub payload: Seq<PayloadEntryView>,
    pub block_number: u32,
    pub validator_set_id: u64,
}

impl View for Commitment {
    type V = CommitmentView;

    open spec fn view(&self) -> CommitmentView {
        CommitmentView {
            payload: self.payload@,
            block_number: self.block_number,
            validator_set_id: self.validator_set_id,
        }
    }
}

/// An entry that the wire format can hold: a two-byte key, and a blob whose
/// length fits in 32 bits.
pub open spec fn entry_fits(e: PayloadEntryView) -> bool {
    e.id.len() == 2 && e.data.len() <= u32::MAX
}

/// A payload that the wire format can hold.
pub open spec fn payload_fits(p: Seq<PayloadEntryView>) -> bool {
    &&& p.len() <= u32::MAX
    &&& forall|i: int| 0 <= i < p.len() ==> entry_fits(#[trigger] p[i])
}

/// The bytes of one entry: its key, then its blob behind a compact length.
pub open spec fn entry_bytes(e: PayloadEntryView) -> Seq<u8> {
    e.id + sized_bytes(e.data)
}

/// The bytes of a run of entries, one behind the other.
pub open spec fn entries_bytes(p: Seq<PayloadEntryView>) -> Seq<u8>
    decreases p.len(),
{
    if p.len() == 0 {
        Seq::<u8>::empty()
    } else {
        entries_bytes(p.drop_last()) + entry_bytes(p.last())
    }
}

/// The bytes of a payload: the compact number of entries, then the entries.
pub open spec fn payload_bytes(p: Seq<PayloadEntryView>) -> Seq<u8> {
    compact(p.len() as u32) + entries_bytes(p)
}

/// The canonical bytes of a commitment: payload, block number and validator
/// set id, the two numbers little-endian.
pub open spec fn commitment_bytes(c: CommitmentView) -> Seq<u8> {
    payload_bytes(c.payload) + u32_le(c.block_number) + u64_le(c.validator_set_id)
}

/// Reads one entry at `pos`.
pub open spec fn read_entry(s: Seq<u8>, pos: int) -> Result<(PayloadEntryView, int), DecodeError> {
    if pos + 2 > s.len() {
        Err(DecodeError::UnexpectedEnd)
    } else {
        match read_sized_bytes(s, pos + 2) {
            Err(e) => Err(e),
            Ok((data, next)) => Ok((PayloadEntryView { id: s.subrange(pos, pos + 2), data }, next)),
        }
    }
}

/// Reads `count` entries, one behind the other, from `pos` on. The first
/// entry that cannot be read decides the error.
pub open spec fn read_entries(s: Seq<u8>, pos: int, count: nat) -> Result<
    (Seq<PayloadEntryView>, int),
    DecodeError,
>
    decreases count,
{
    if count == 0 {
        Ok((Seq::<PayloadEntryView>::empty(), pos))
    } else {
        match read_entries(s, pos, (count - 1) as nat) {
            Err(e) => Err(e),
            Ok((front, mid)) => match read_entry(s, mid) {
                Err(e) => Err(e),
                Ok((last, next)) => Ok((front.push(last), next)),
            },
        }
    }
}

/// Reads a payload at `pos`.
pub open spec fn read_payload(s: Seq<u8>, pos: int) -> Result<
    (Seq<PayloadEntryView>, int),
    DecodeError,
> {
    match read_compact(s, pos) {
        Err(e) => Err(e),
        Ok((count, start)) => read_entries(s, start, count as nat),
    }
}

/// Reads a commitment at `pos`: the commitment and the position behind it.
pub open spec fn read_commitment(s: Seq<u8>, pos: int) -> Result<(CommitmentView, int), DecodeError> {
    match read_payload(s, pos) {
        Err(e) => Err(e),
        Ok((payload, mid)) => if mid + 12 > s.len() {
            Err(DecodeError::UnexpectedEnd)
        } else {
            Ok(
                (
                    CommitmentView {
                        payload,
                        block_number: le_u32_at(s, mid) as u32,
                        validator_set_id: le_u64_at(s, mid + 4) as u64,
                    },
                    mid + 12,
                ),
            )
        },
    }
}

impl Payload {
    /// A payload of one entry.
    pub fn from_single_entry(id: [u8; 2], value: Vec<u8>) -> (p: Payload)
        ensures
            p@ == seq![PayloadEntryView { id: id@, data: value@ }],
    {
        let mut entries: Vec<PayloadEntry> = Vec::new();
        entries.push(PayloadEntry { id, data: value });
        let p = Payload { entries };
        assert(p@ =~= seq![PayloadEntryView { id: id@, data: value@ }]);
        p
    }
}

/// Entries are encoded one behind the other, so a run's bytes end with those
/// of its last entry.
proof fn lemma_entries_bytes_step(p: Seq<PayloadEntryView>, i: int)
    requires
        0 <= i < p.len(),
    ensures
        entries_bytes(p.take(i + 1)) == entries_bytes(p.take(i)) + entry_bytes(p[i]),
{
    assert(p.take(i + 1).drop_last() =~= p.take(i));
}

/// Once an entry cannot be read, no longer run can be read either, and the
/// error stays the same.
proof fn lemma_read_entries_fails(s: Seq<u8>, pos: int, failed: nat, count: nat)
    requires
        read_entries(s, pos, failed) is Err,
        failed <= count,
    ensures
        read_entries(s, pos, count) == read_entries(s, pos, failed),
    decreases count,
{
    if count > failed {
        lemma_read_entries_fails(s, pos, failed, (count - 1) as nat);
    }
}

/// Appends the bytes of `payload` to `out`.
pub fn put_payload(out: &mut Vec<u8>, payload: &Payload)
    requires
        payload_fits(payload@),
    ensures
        final(out)@ == old(out)@ + payload_bytes(payload@),
{
    let count: usize = payload.entries.len();
    put_compact(out, count as u32);
    let mut i: usize = 0;
    while i < count
        invariant
            i <= count,
            count == payload.entries@.len(),
            payload_fits(payload@),
            out@ == old(out)@ + compact(count as u32) + entries_bytes(payload@.take(i as int)),
        decreases count - i,
    {
        let entry = &payload.entries[i];
        proof {
            lemma_entries_bytes_step(payload@, i as int);
            assert(payload@[i as int] == entry@);
            assert(entry_fits(payload@[i as int]));
        }
        let ghost before = out@;
        out.push(entry.id[0]);
        out.push(entry.id[1]);
        assert(out@ =~= before + entry.id@);
        put_sized_bytes(out, entry.data.as_slice());
        assert(out@ =~= before + entry_bytes(entry@));
        i = i + 1;
    }
    assert(payload@.take(count as int) =~= payload@);
    assert(out@ =~= old(out)@ + payload_bytes(payload@));
}

/// Reads a payload at `pos`.
pub fn get_payload(s: &[u8], pos: usize) -> (r: Result<(Payload, usize), DecodeError>)
    ensures
        r is Ok <==> read_payload(s@, pos as int) is Ok,
        r is Ok ==> r->Ok_0.0@ == read_payload(s@, pos as int)->Ok_0.0 && r->Ok_0.1 == read_payload(
            s@,
            pos as int,
        )->Ok_0.1 && pos < r->Ok_0.1 <= s@.len(),
        r is Err ==> r->Err_0 == read_payload(s@, pos as int)->Err_0,
{
    let (count, start) = match get_compact(s, pos) {
        Ok(found) => found,
        Err(e) => { return Err(e); },
    };
    let mut entries: Vec<PayloadEntry> = Vec::new();
    let mut cur: usize = start;
    let mut i: u32 = 0;
    assert(entries_view(entries@) =~= Seq::<PayloadEntryView>::empty());
    while i < count
        invariant
            i <= count,
            start <= cur <= s@.len(),
            read_compact(s@, pos as int) is Ok,
            read_compact(s@, pos as int)->Ok_0 == (count, start as int),
            read_entries(s@, start as int, i as nat) == Ok::<(Seq<PayloadEntryView>, int), DecodeError>(
                (entries_view(entries@), cur as int),
            ),
        decreases count - i,
    {
        if s.len() - cur < 2 {
            proof {
                assert(read_entries(s@, start as int, (i + 1) as nat) is Err);
                lemma_read_entries_fails(s@, start as int, (i + 1) as nat, count as nat);
            }
            return Err(DecodeError::UnexpectedEnd);
        }
        let id: [u8; 2] = [s[cur], s[cur + 1]];
        assert(id@ =~= s@.subrange(cur as int, cur + 2));
        let (data, next) = match get_sized_bytes(s, cur + 2) {
            Ok(found) => found,
            Err(e) => {
                proof {
                    assert(read_entries(s@, start as int, (i + 1) as nat) is Err);
                    lemma_read_entries_fails(s@, start as int, (i + 1) as nat, count as nat);
                }
                return Err(e);
            },
        };
        let ghost front = entries_view(entries@);
        let entry = PayloadEntry { id, data };
        entries.push(entry);
        assert(entries_view(entries@) =~= front.push(entry@));
        cur = next;
        i = i + 1;
    }
    Ok((Payload { entries }, cur))
}

impl Commitment {
    /// The canonical bytes of the commitment.
    pub fn encode(&self) -> (out: Vec<u8>)
        requires
            payload_fits(self@.payload),
        ensures
            out@ == commitment_bytes(self@),
    {
        let mut out: Vec<u8> = Vec::new();
        put_payload(&mut out, &self.payload);
        put_u32(&mut out, self.block_number);
        put_u64(&mut out, self.validator_set_id);
        assert(out@ =~= commitment_bytes(self@));
        out
    }

    /// Reads a commitment at `pos`: the commitment and the position behind it.
    pub fn decode_at(s: &[u8], pos: usize) -> (r: Result<(Commitment, usize), DecodeError>)
        ensures
            r is Ok <==> read_commitment(s@, pos as int) is Ok,
            r is Ok ==> r->Ok_0.0@ == read_commitment(s@, pos as int)->Ok_0.0 && r->Ok_0.1
                == read_commitment(s@, pos as int)->Ok_0.1 && pos < r->Ok_0.1 <= s@.len(),
            r is Err ==> r->Err_0 == read_commitment(s@, pos as int)->Err_0,
    {
        let (payload, mid) = match get_payload(s, pos) {
            Ok(found) => found,
            Err(e) => { return Err(e); },
        };
        if s.len() - mid < 12 {
            return Err(DecodeError::UnexpectedEnd);
        }
        let (block_number, after) = match get_u32(s, mid) {
            Ok(found) => found,
            Err(e) => { return Err(e); },
        };
        let (validator_set_id, next) = match get_u64(s, after) {
            Ok(found) => found,
            Err(e) => { return Err(e); },
        };
        Ok((Commitment { payload, block_number, validator_set_id }, next))
    }
}

/// A stretch that holds the bytes of an entry reads back as that entry.
pub proof fn lemma_read_entry(e: PayloadEntryView, s: Seq<u8>, pos: int)
    requires
        0 <= pos,
        entry_fits(e),
        pos + entry_bytes(e).len() <= s.len(),
        s.subrange(pos, pos + entry_bytes(e).len()) == entry_bytes(e),
    ensures
        read_entry(s, pos) == Ok::<(PayloadEntryView, int), DecodeError>(
            (e, pos + entry_bytes(e).len()),
        ),
{
    lemma_split_stretch(s, pos, e.id, sized_bytes(e.data));
    lemma_read_sized_bytes(e.data, s, pos + 2);
}

/// What `read_entry` accepts is the bytes of the entry it returns.
pub proof fn lemma_write_entry(s: Seq<u8>, pos: int)
    requires
        0 <= pos,
        read_entry(s, pos) is Ok,
    ensures
        pos < read_entry(s, pos)->Ok_0.1 <= s.len(),
        entry_fits(read_entry(s, pos)->Ok_0.0),
        s.subrange(pos, read_entry(s, pos)->Ok_0.1) == entry_bytes(read_entry(s, pos)->Ok_0.0),
{
    lemma_write_sized_bytes(s, pos + 2);
    lemma_join_stretches(s, pos, pos + 2, read_entry(s, pos)->Ok_0.1);
}

/// A stretch that holds the bytes of a run of entries reads back as that run.
pub proof fn lemma_read_entries(p: Seq<PayloadEntryView>, s: Seq<u8>, pos: int)
    requires
        0 <= pos,
        forall|i: int| 0 <= i < p.len() ==> entry_fits(#[trigger] p[i]),
        pos + entries_bytes(p).len() <= s.len(),
        s.subrange(pos, pos + entries_bytes(p).len()) == entries_bytes(p),
    ensures
        read_entries(s, pos, p.len()) == Ok::<(Seq<PayloadEntryView>, int), DecodeError>(
            (p, pos + entries_bytes(p).len()),
        ),
    decreases p.len(),
{
    if p.len() == 0 {
        assert(p =~= Seq::<PayloadEntryView>::empty());
    } else {
        let front = p.drop_last();
        let last = p.last();
        lemma_split_stretch(s, pos, entries_bytes(front), entry_bytes(last));
        assert forall|i: int| 0 <= i < front.len() implies entry_fits(#[trigger] front[i]) by {
            assert(front[i] == p[i]);
        }
        lemma_read_entries(front, s, pos);
        lemma_read_entry(last, s, pos + entries_bytes(front).len());
        assert(front.push(last) =~= p);
    }
}

/// What `read_entries` accepts is the bytes of the run it returns, and the
/// run has as many entries as were asked for.
pub proof fn lemma_write_entries(s: Seq<u8>, pos: int, count: nat)
    requires
        0 <= pos <= s.len(),
        read_entries(s, pos, count) is Ok,
    ensures
        pos <= read_entries(s, pos, count)->Ok_0.1 <= s.len(),
        read_entries(s, pos, count)->Ok_0.0.len() == count,
        forall|i: int|
            0 <= i < count ==> entry_fits(#[trigger] read_entries(s, pos, count)->Ok_0.0[i]),
        s.subrange(pos, read_entries(s, pos, count)->Ok_0.1) == entries_bytes(
            read_entries(s, pos, count)->Ok_0.0,
        ),
    decreases count,
{
    if count == 0 {
        assert(s.subrange(pos, pos) =~= Seq::<u8>::empty());
    } else {
        lemma_write_entries(s, pos, (count - 1) as nat);
        let (front, mid) = read_entries(s, pos, (count - 1) as nat)->Ok_0;
        lemma_write_entry(s, mid);
        let (last, next) = read_entry(s, mid)->Ok_0;
        let run = front.push(last);
        assert(run.drop_last() =~= front);
        lemma_join_stretches(s, pos, mid, next);
    }
}

/// The canonical bytes of a commitment read back as the commitment.
pub proof fn lemma_read_commitment(c: CommitmentView, s: Seq<u8>, pos: int)
    requires
        0 <= pos,
        payload_fits(c.payload),
        pos + commitment_bytes(c).len() <= s.len(),
        s.subrange(pos, pos + commitment_bytes(c).len()) == commitment_bytes(c),
    ensures
        read_commitment(s, pos) == Ok::<(CommitmentView, int), DecodeError>(
            (c, pos + commitment_bytes(c).len()),
        ),
{
    let pb = payload_bytes(c.payload);
    let count = compact(c.payload.len() as u32);
    lemma_split_stretch(s, pos, pb + u32_le(c.block_number), u64_le(c.validator_set_id));
    lemma_split_stretch(s, pos, pb, u32_le(c.block_number));
    lemma_split_stretch(s, pos, count, entries_bytes(c.payload));
    lemma_read_compact(c.payload.len() as u32, s, pos);
    lemma_read_entries(c.payload, s, pos + count.len());
    let mid = pos + pb.len();
    lemma_read_u32_le(c.block_number, s, mid);
    lemma_read_u64_le(c.validator_set_id, s, mid + 4);
}

/// What `read_commitment` accepts is the canonical bytes of the commitment it
/// returns: reading loses nothing of the payload, the block number or the
/// validator set id.
pub proof fn lemma_write_commitment(s: Seq<u8>, pos: int)
    requires
        0 <= pos,
        read_commitment(s, pos) is Ok,
    ensures
        pos < read_commitment(s, pos)->Ok_0.1 <= s.len(),
        payload_fits(read_commitment(s, pos)->Ok_0.0.payload),
        s.subrange(pos, read_commitment(s, pos)->Ok_0.1) == commitment_bytes(
            read_commitment(s, pos)->Ok_0.0,
        ),
{
    lemma_write_compact(s, pos);
    let (count, start) = read_compact(s, pos)->Ok_0;
    lemma_write_entries(s, start, count as nat);
    let (payload, mid) = read_entries(s, start, count as nat)->Ok_0;
    lemma_join_stretches(s, pos, start, mid);
    lemma_write_u32_le(s, mid);
    lemma_write_u64_le(s, mid + 4);
    lemma_join_stretches(s, pos, mid, mid + 4);
    lemma_join_stretches(s, pos, mid + 4, mid + 12);
}

} // verus!
