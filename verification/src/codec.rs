//! The primitives of the SCALE wire format that justification frames are
//! built from: fixed-width little-endian integers and compact lengths.

use vstd::prelude::*;
use vstd::slice::{slice_subrange, slice_to_vec};

verus! {

/// Why a byte string could not be read.
#[derive(Clone, Copy, Debug, PartialEq, Eq, Structural)]
pub enum DecodeError {
    /// The input ends before the value does.
    UnexpectedEnd,
    /// A compact length is not written in its shortest form, or does not fit
    /// in 32 bits.
    InvalidLength,
    /// The leading version tag is not one this crate understands.
    UnknownVersion,
}

/// The two little-endian bytes of `n`.
pub open spec fn u16_le(n: u16) -> Seq<u8> {
    seq![(n % 256) as u8, (n / 256) as u8]
}

/// The four little-endian bytes of `n`.
pub open spec fn u32_le(n: u32) -> Seq<u8> {
    seq![
        (n % 256) as u8,
        ((n / 256) % 256) as u8,
        ((n / 65536) % 256) as u8,
        (n / 16777216) as u8,
    ]
}

/// The eight little-endian bytes of `n`.
pub open spec fn u64_le(n: u64) -> Seq<u8> {
    u32_le((n % 0x1_0000_0000) as u32) + u32_le((n / 0x1_0000_0000) as u32)
}

/// The number whose little-endian bytes are the two bytes of `s` at `pos`.
pub open spec fn le_u16_at(s: Seq<u8>, pos: int) -> int {
    s[pos] + 256 * s[pos + 1]
}

/// The number whose little-endian bytes are the four bytes of `s` at `pos`.
pub open spec fn le_u32_at(s: Seq<u8>, pos: int) -> int {
    s[pos] + 256 * s[pos + 1] + 65536 * s[pos + 2] + 16777216 * s[pos + 3]
}

/// The number whose little-endian bytes are the eight bytes of `s` at `pos`.
pub open spec fn le_u64_at(s: Seq<u8>, pos: int) -> int {
    le_u32_at(s, pos) + 0x1_0000_0000 * le_u32_at(s, pos + 4)
}

/// The compact form of a length: one, two, four or five bytes, the shortest
/// that holds `n`, with the form's number in the two low bits of the first.
pub open spec fn compact(n: u32) -> Seq<u8> {
    if n < 64 {
        seq![(n * 4) as u8]
    } else if n < 16384 {
        u16_le((n * 4 + 1) as u16)
    } else if n < 0x4000_0000 {
        u32_le((n * 4 + 2) as u32)
    } else {
        seq![3u8] + u32_le(n)
    }
}

/// Reads the compact length that starts at `pos`: the length and the position
/// behind it. A form longer than the length needs is refused, and so is a
/// length of more than 32 bits.
pub open spec fn read_compact(s: Seq<u8>, pos: int) -> Result<(u32, int), DecodeError> {
    if pos >= s.len() {
        Err(DecodeError::UnexpectedEnd)
    } else if s[pos] % 4 == 0 {
        Ok(((s[pos] / 4) as u32, pos + 1))
    } else if s[pos] % 4 == 1 {
        if pos + 2 > s.len() {
            Err(DecodeError::UnexpectedEnd)
        } else if le_u16_at(s, pos) / 4 > 63 {
            Ok(((le_u16_at(s, pos) / 4) as u32, pos + 2))
        } else {
            Err(DecodeError::InvalidLength)
        }
    } else if s[pos] % 4 == 2 {
        if pos + 4 > s.len() {
            Err(DecodeError::UnexpectedEnd)
        } else if le_u32_at(s, pos) / 4 > 16383 {
            Ok(((le_u32_at(s, pos) / 4) as u32, pos + 4))
        } else {
            Err(DecodeError::InvalidLength)
        }
    } else if s[pos] != 3 {
        Err(DecodeError::InvalidLength)
    } else if pos + 5 > s.len() {
        Err(DecodeError::UnexpectedEnd)
    } else if le_u32_at(s, pos + 1) > 0x3fff_ffff {
        Ok((le_u32_at(s, pos + 1) as u32, pos + 5))
    } else {
        Err(DecodeError::InvalidLength)
    }
}

/// Appends the four little-endian bytes of `n` to `out`.
pub fn put_u32(out: &mut Vec<u8>, n: u32)
    ensures
        final(out)@ == old(out)@ + u32_le(n),
{
    out.push((n % 256) as u8);
    out.push(((n / 256) % 256) as u8);
    out.push(((n / 65536) % 256) as u8);
    out.push((n / 16777216) as u8);
    assert(out@ =~= old(out)@ + u32_le(n));
}

/// Appends the eight little-endian bytes of `n` to `out`.
pub fn put_u64(out: &mut Vec<u8>, n: u64)
    ensures
        final(out)@ == old(out)@ + u64_le(n),
{
    put_u32(out, (n % 0x1_0000_0000) as u32);
    put_u32(out, (n / 0x1_0000_0000) as u32);
    assert(out@ =~= old(out)@ + u64_le(n));
}

/// Appends the compact form of `n` to `out`.
pub fn put_compact(out: &mut Vec<u8>, n: u32)
    ensures
        final(out)@ == old(out)@ + compact(n),
{
    if n < 64 {
        out.push((n * 4) as u8);
    } else if n < 16384 {
        let x: u16 = (n * 4 + 1) as u16;
        out.push((x % 256) as u8);
        out.push((x / 256) as u8);
    } else if n < 0x4000_0000 {
        put_u32(out, n * 4 + 2);
    } else {
        out.push(3u8);
        put_u32(out, n);
    }
    assert(out@ =~= old(out)@ + compact(n));
}

/// Reads four little-endian bytes at `pos`.
pub fn get_u32(s: &[u8], pos: usize) -> (r: Result<(u32, usize), DecodeError>)
    ensures
        r == (if pos + 4 <= s@.len() {
            Ok::<(u32, usize), DecodeError>((le_u32_at(s@, pos as int) as u32, (pos + 4) as usize))
        } else {
            Err(DecodeError::UnexpectedEnd)
        }),
{
    if s.len() < 4 || pos > s.len() - 4 {
        return Err(DecodeError::UnexpectedEnd);
    }
    let n: u32 = (s[pos] as u32) + 256 * (s[pos + 1] as u32) + 65536 * (s[pos + 2] as u32)
        + 16777216 * (s[pos + 3] as u32);
    Ok((n, pos + 4))
}

/// Reads eight little-endian bytes at `pos`.
pub fn get_u64(s: &[u8], pos: usize) -> (r: Result<(u64, usize), DecodeError>)
    ensures
        r == (if pos + 8 <= s@.len() {
            Ok::<(u64, usize), DecodeError>((le_u64_at(s@, pos as int) as u64, (pos + 8) as usize))
        } else {
            Err(DecodeError::UnexpectedEnd)
        }),
{
    if s.len() < 8 || pos > s.len() - 8 {
        return Err(DecodeError::UnexpectedEnd);
    }
    let lo: u64 = (s[pos] as u64) + 256 * (s[pos + 1] as u64) + 65536 * (s[pos + 2] as u64)
        + 16777216 * (s[pos + 3] as u64);
    let hi: u64 = (s[pos + 4] as u64) + 256 * (s[pos + 5] as u64) + 65536 * (s[pos + 6] as u64)
        + 16777216 * (s[pos + 7] as u64);
    Ok((lo + 0x1_0000_0000 * hi, pos + 8))
}

/// Reads the compact length at `pos`.
pub fn get_compact(s: &[u8], pos: usize) -> (r: Result<(u32, usize), DecodeError>)
    ensures
        r is Ok <==> read_compact(s@, pos as int) is Ok,
        r is Ok ==> r->Ok_0.0 == read_compact(s@, pos as int)->Ok_0.0 && r->Ok_0.1 == read_compact(
            s@,
            pos as int,
        )->Ok_0.1 && pos < r->Ok_0.1 <= s@.len(),
        r is Err ==> r->Err_0 == read_compact(s@, pos as int)->Err_0,
{
    if pos >= s.len() {
        return Err(DecodeError::UnexpectedEnd);
    }
    let first: u8 = s[pos];
    let form: u8 = first % 4;
    if form == 0 {
        Ok(((first / 4) as u32, pos + 1))
    } else if form == 1 {
        if s.len() - pos < 2 {
            return Err(DecodeError::UnexpectedEnd);
        }
        let x: u32 = ((first as u32) + 256 * (s[pos + 1] as u32)) / 4;
        if x > 63 {
            Ok((x, pos + 2))
        } else {
            Err(DecodeError::InvalidLength)
        }
    } else if form == 2 {
        if s.len() - pos < 4 {
            return Err(DecodeError::UnexpectedEnd);
        }
        let x: u32 = ((first as u32) + 256 * (s[pos + 1] as u32) + 65536 * (s[pos + 2] as u32)
            + 16777216 * (s[pos + 3] as u32)) / 4;
        if x > 16383 {
            Ok((x, pos + 4))
        } else {
            Err(DecodeError::InvalidLength)
        }
    } else if first != 3 {
        Err(DecodeError::InvalidLength)
    } else {
        if s.len() - pos < 5 {
            return Err(DecodeError::UnexpectedEnd);
        }
        let x: u32 = (s[pos + 1] as u32) + 256 * (s[pos + 2] as u32) + 65536 * (s[pos + 3] as u32)
            + 16777216 * (s[pos + 4] as u32);
        if x > 0x3fff_ffff {
            Ok((x, pos + 5))
        } else {
            Err(DecodeError::InvalidLength)
        }
    }
}

/// A byte string behind its compact length.
pub open spec fn sized_bytes(data: Seq<u8>) -> Seq<u8> {
    compact(data.len() as u32) + data
}

/// Reads a compact length at `pos` and as many bytes behind it: the bytes and
/// the position behind them.
pub open spec fn read_sized_bytes(s: Seq<u8>, pos: int) -> Result<(Seq<u8>, int), DecodeError> {
    match read_compact(s, pos) {
        Err(e) => Err(e),
        Ok((n, start)) => if start + n > s.len() {
            Err(DecodeError::UnexpectedEnd)
        } else {
            Ok((s.subrange(start, start + n), start + n))
        },
    }
}

/// Four bytes that hold `u32_le(n)` read back as `n`.
pub proof fn lemma_read_u32_le(n: u32, s: Seq<u8>, pos: int)
    requires
        0 <= pos,
        pos + 4 <= s.len(),
        s.subrange(pos, pos + 4) == u32_le(n),
    ensures
        le_u32_at(s, pos) == n,
{
    let t = s.subrange(pos, pos + 4);
    assert(t[0] == s[pos] && t[1] == s[pos + 1] && t[2] == s[pos + 2] && t[3] == s[pos + 3]);
}

/// Any four bytes are the little-endian form of the number read from them.
pub proof fn lemma_write_u32_le(s: Seq<u8>, pos: int)
    requires
        0 <= pos,
        pos + 4 <= s.len(),
    ensures
        0 <= le_u32_at(s, pos) <= u32::MAX,
        u32_le(le_u32_at(s, pos) as u32) == s.subrange(pos, pos + 4),
{
    lemma_le_sum(s[pos] as int, s[pos + 1] as int, s[pos + 2] as int, s[pos + 3] as int);
    let n = le_u32_at(s, pos) as u32;
    assert(u32_le(n)[0] == s[pos]);
    assert(u32_le(n)[1] == s[pos + 1]);
    assert(u32_le(n)[2] == s[pos + 2]);
    assert(u32_le(n)[3] == s[pos + 3]);
    assert(u32_le(n) =~= s.subrange(pos, pos + 4));
}

/// Eight bytes that hold `u64_le(n)` read back as `n`.
pub proof fn lemma_read_u64_le(n: u64, s: Seq<u8>, pos: int)
    requires
        0 <= pos,
        pos + 8 <= s.len(),
        s.subrange(pos, pos + 8) == u64_le(n),
    ensures
        le_u64_at(s, pos) == n,
{
    let t = s.subrange(pos, pos + 8);
    let lo = u32_le((n % 0x1_0000_0000) as u32);
    let hi = u32_le((n / 0x1_0000_0000) as u32);
    assert(t == lo + hi);
    assert(s.subrange(pos, pos + 4) =~= lo) by {
        assert forall|i: int| 0 <= i < 4 implies s.subrange(pos, pos + 4)[i] == lo[i] by {
            assert(t[i] == s[pos + i]);
        }
    }
    assert(s.subrange(pos + 4, pos + 8) =~= hi) by {
        assert forall|i: int| 0 <= i < 4 implies s.subrange(pos + 4, pos + 8)[i] == hi[i] by {
            assert(t[i + 4] == s[pos + 4 + i]);
        }
    }
    lemma_read_u32_le((n % 0x1_0000_0000) as u32, s, pos);
    lemma_read_u32_le((n / 0x1_0000_0000) as u32, s, pos + 4);
}

/// Any eight bytes are the little-endian form of the number read from them.
pub proof fn lemma_write_u64_le(s: Seq<u8>, pos: int)
    requires
        0 <= pos,
        pos + 8 <= s.len(),
    ensures
        0 <= le_u64_at(s, pos) <= u64::MAX,
        u64_le(le_u64_at(s, pos) as u64) == s.subrange(pos, pos + 8),
{
    lemma_write_u32_le(s, pos);
    lemma_write_u32_le(s, pos + 4);
    let n = le_u64_at(s, pos) as u64;
    assert((n % 0x1_0000_0000) as u32 == le_u32_at(s, pos));
    assert((n / 0x1_0000_0000) as u32 == le_u32_at(s, pos + 4));
    assert(u64_le(n) =~= s.subrange(pos, pos + 8));
}

/// The four little-endian digits of a number add up to it.
proof fn lemma_le_digits(x: int)
    requires
        0 <= x < 0x1_0000_0000,
    ensures
        (x % 256) + 256 * ((x / 256) % 256) + 65536 * ((x / 65536) % 256) + 16777216 * (x
            / 16777216) == x,
        (x % 256) % 4 == x % 4,
        x / 16777216 < 256,
{
}

/// Four digits below 256 are the little-endian digits of their sum.
proof fn lemma_le_sum(b0: int, b1: int, b2: int, b3: int)
    requires
        0 <= b0 < 256,
        0 <= b1 < 256,
        0 <= b2 < 256,
        0 <= b3 < 256,
    ensures
        ({
            let x = b0 + 256 * b1 + 65536 * b2 + 16777216 * b3;
            &&& 0 <= x < 0x1_0000_0000
            &&& x % 256 == b0
            &&& (x / 256) % 256 == b1
            &&& (x / 65536) % 256 == b2
            &&& x / 16777216 == b3
            &&& x % 4 == b0 % 4
        }),
{
}

/// Bytes that hold `compact(n)` read back as `n`.
pub proof fn lemma_read_compact(n: u32, s: Seq<u8>, pos: int)
    requires
        0 <= pos,
        pos + compact(n).len() <= s.len(),
        s.subrange(pos, pos + compact(n).len()) == compact(n),
    ensures
        read_compact(s, pos) == Ok::<(u32, int), DecodeError>((n, pos + compact(n).len())),
{
    let c = compact(n);
    let t = s.subrange(pos, pos + c.len());
    if n < 64 {
        assert(t[0] == s[pos]);
        assert(s[pos] == (n * 4) as u8);
    } else if n < 16384 {
        assert(t[0] == s[pos] && t[1] == s[pos + 1]);
        let x: int = n * 4 + 1;
        assert(s[pos] == x % 256 && s[pos + 1] == x / 256);
        assert(le_u16_at(s, pos) == x);
    } else if n < 0x4000_0000 {
        assert(t[0] == s[pos] && t[1] == s[pos + 1] && t[2] == s[pos + 2] && t[3] == s[pos + 3]);
        let x: int = n * 4 + 2;
        lemma_le_digits(x);
        assert(s[pos] == x % 256);
        assert(s[pos + 1] == (x / 256) % 256);
        assert(s[pos + 2] == (x / 65536) % 256);
        assert(s[pos + 3] == x / 16777216);
        assert(le_u32_at(s, pos) == x);
    } else {
        assert(t[0] == s[pos] && t[1] == s[pos + 1] && t[2] == s[pos + 2] && t[3] == s[pos + 3]
            && t[4] == s[pos + 4]);
        let x: int = n as int;
        lemma_le_digits(x);
        assert(s[pos] == 3);
        assert(s[pos + 1] == x % 256);
        assert(s[pos + 2] == (x / 256) % 256);
        assert(s[pos + 3] == (x / 65536) % 256);
        assert(s[pos + 4] == x / 16777216);
        assert(le_u32_at(s, pos + 1) == x);
    }
}

/// What `read_compact` accepts is the compact form of what it returns.
pub proof fn lemma_write_compact(s: Seq<u8>, pos: int)
    requires
        0 <= pos,
        read_compact(s, pos) is Ok,
    ensures
        pos < read_compact(s, pos)->Ok_0.1 <= s.len(),
        s.subrange(pos, read_compact(s, pos)->Ok_0.1) == compact(read_compact(s, pos)->Ok_0.0),
{
    let (n, next) = read_compact(s, pos)->Ok_0;
    let b0: int = s[pos] as int;
    if b0 % 4 == 0 {
        assert(n == b0 / 4);
        assert((n * 4) as u8 == s[pos]);
        assert(s.subrange(pos, next) =~= compact(n));
    } else if b0 % 4 == 1 {
        let x = le_u16_at(s, pos);
        assert(x % 4 == 1);
        assert(n == x / 4);
        assert(n * 4 + 1 == x);
        assert(x % 256 == b0 && x / 256 == s[pos + 1]);
        assert(s.subrange(pos, next) =~= compact(n));
    } else if b0 % 4 == 2 {
        let x = le_u32_at(s, pos);
        lemma_le_sum(b0, s[pos + 1] as int, s[pos + 2] as int, s[pos + 3] as int);
        assert(n == x / 4);
        assert(n * 4 + 2 == x);
        assert(s.subrange(pos, next) =~= compact(n));
    } else {
        let x = le_u32_at(s, pos + 1);
        lemma_le_sum(s[pos + 1] as int, s[pos + 2] as int, s[pos + 3] as int, s[pos + 4] as int);
        assert(n == x);
        assert(compact(n) == seq![3u8] + u32_le(n));
        assert(s.subrange(pos, next) =~= compact(n));
    }
}

/// A sized byte string reads back as its bytes.
pub proof fn lemma_read_sized_bytes(data: Seq<u8>, s: Seq<u8>, pos: int)
    requires
        0 <= pos,
        data.len() <= u32::MAX,
        pos + sized_bytes(data).len() <= s.len(),
        s.subrange(pos, pos + sized_bytes(data).len()) == sized_bytes(data),
    ensures
        read_sized_bytes(s, pos) == Ok::<(Seq<u8>, int), DecodeError>(
            (data, pos + sized_bytes(data).len()),
        ),
{
    let n = data.len() as u32;
    let c = compact(n);
    let e = sized_bytes(data);
    let t = s.subrange(pos, pos + e.len());
    assert(s.subrange(pos, pos + c.len()) =~= c) by {
        assert forall|i: int| 0 <= i < c.len() implies s.subrange(pos, pos + c.len())[i] == c[i] by {
            assert(t[i] == s[pos + i]);
            assert(e[i] == c[i]);
        }
    }
    lemma_read_compact(n, s, pos);
    let start = pos + c.len();
    assert(s.subrange(start, start + n) =~= data) by {
        assert forall|i: int| 0 <= i < n implies s.subrange(start, start + n)[i] == data[i] by {
            assert(t[c.len() + i] == s[start + i]);
            assert(e[c.len() + i] == data[i]);
        }
    }
}

/// What `read_sized_bytes` accepts is the sized form of what it returns.
pub proof fn lemma_write_sized_bytes(s: Seq<u8>, pos: int)
    requires
        0 <= pos,
        read_sized_bytes(s, pos) is Ok,
    ensures
        pos < read_sized_bytes(s, pos)->Ok_0.1 <= s.len(),
        read_sized_bytes(s, pos)->Ok_0.0.len() <= u32::MAX,
        s.subrange(pos, read_sized_bytes(s, pos)->Ok_0.1) == sized_bytes(
            read_sized_bytes(s, pos)->Ok_0.0,
        ),
{
    lemma_write_compact(s, pos);
    let (n, start) = read_compact(s, pos)->Ok_0;
    let (data, next) = read_sized_bytes(s, pos)->Ok_0;
    assert(s.subrange(pos, next) =~= s.subrange(pos, start) + data);
}

/// Appends `data` behind its compact length to `out`.
pub fn put_sized_bytes(out: &mut Vec<u8>, data: &[u8])
    requires
        data@.len() <= u32::MAX,
    ensures
        final(out)@ == old(out)@ + sized_bytes(data@),
{
    put_compact(out, data.len() as u32);
    out.extend_from_slice(data);
    assert(out@ =~= old(out)@ + sized_bytes(data@));
}

/// Reads a compact length at `pos` and as many bytes behind it.
pub fn get_sized_bytes(s: &[u8], pos: usize) -> (r: Result<(Vec<u8>, usize), DecodeError>)
    ensures
        r is Ok <==> read_sized_bytes(s@, pos as int) is Ok,
        r is Ok ==> r->Ok_0.0@ == read_sized_bytes(s@, pos as int)->Ok_0.0 && r->Ok_0.1
            == read_sized_bytes(s@, pos as int)->Ok_0.1 && pos < r->Ok_0.1 <= s@.len(),
        r is Err ==> r->Err_0 == read_sized_bytes(s@, pos as int)->Err_0,
{
    let (n, start) = match get_compact(s, pos) {
        Ok(found) => found,
        Err(e) => { return Err(e); },
    };
    if s.len() - start < n as usize {
        return Err(DecodeError::UnexpectedEnd);
    }
    let end: usize = start + n as usize;
    let data = slice_to_vec(slice_subrange(s, start, end));
    Ok((data, end))
}

/// Where a stretch of `s` holds `a` followed by `b`, its front holds `a` and
/// the rest holds `b`.
pub proof fn lemma_split_stretch(s: Seq<u8>, pos: int, a: Seq<u8>, b: Seq<u8>)
    requires
        0 <= pos,
        pos + a.len() + b.len() <= s.len(),
        s.subrange(pos, pos + a.len() + b.len()) == a + b,
    ensures
        s.subrange(pos, pos + a.len()) == a,
        s.subrange(pos + a.len(), pos + a.len() + b.len()) == b,
{
    let t = s.subrange(pos, pos + a.len() + b.len());
    assert forall|i: int| 0 <= i < a.len() implies s.subrange(pos, pos + a.len())[i] == a[i] by {
        assert(t[i] == s[pos + i]);
        assert((a + b)[i] == a[i]);
    }
    assert forall|i: int| 0 <= i < b.len() implies s.subrange(
        pos + a.len(),
        pos + a.len() + b.len(),
    )[i] == b[i] by {
        assert(t[a.len() + i] == s[pos + a.len() + i]);
        assert((a + b)[a.len() + i] == b[i]);
    }
    assert(s.subrange(pos, pos + a.len()) =~= a);
    assert(s.subrange(pos + a.len(), pos + a.len() + b.len()) =~= b);
}

/// Two stretches of `s` that meet make up the stretch over both.
pub proof fn lemma_join_stretches(s: Seq<u8>, from: int, mid: int, to: int)
    requires
        0 <= from <= mid <= to <= s.len(),
    ensures
        s.subrange(from, mid) + s.subrange(mid, to) == s.subrange(from, to),
{
    assert(s.subrange(from, mid) + s.subrange(mid, to) =~= s.subrange(from, to));
}

} // verus!
