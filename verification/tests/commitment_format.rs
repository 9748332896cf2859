use beacon_relayer::codec::DecodeError;
use beacon_relayer::commitment::{get_payload, put_payload, Commitment, Payload, PayloadEntry};
use parity_scale_codec::Encode;

fn commitment(entries: Vec<([u8; 2], Vec<u8>)>, block_number: u32, validator_set_id: u64) -> Commitment {
    Commitment {
        payload: Payload {
            entries: entries.into_iter().map(|(id, data)| PayloadEntry { id, data }).collect(),
        },
        block_number,
        validator_set_id,
    }
}

fn entries_of(c: &Commitment) -> Vec<([u8; 2], Vec<u8>)> {
    c.payload.entries.iter().map(|e| (e.id, e.data.clone())).collect()
}

#[test]
fn commitment_bytes_are_payload_block_number_and_set_id() {
    let c = commitment(vec![(*b"mh", vec![0xde, 0xad])], 100, 3);
    assert_eq!(
        c.encode(),
        vec![0x04, b'm', b'h', 0x08, 0xde, 0xad, 100, 0, 0, 0, 3, 0, 0, 0, 0, 0, 0, 0]
    );
}

#[test]
fn commitment_of_one_empty_entry() {
    let c = Commitment {
        payload: Payload::from_single_entry(*b"ef", Vec::new()),
        block_number: 100,
        validator_set_id: 3,
    };
    assert_eq!(c.payload.entries.len(), 1);
    assert_eq!(c.payload.entries[0].id, *b"ef");
    assert!(c.payload.entries[0].data.is_empty());
    assert_eq!(c.encode(), vec![0x04, b'e', b'f', 0x00, 100, 0, 0, 0, 3, 0, 0, 0, 0, 0, 0, 0]);
}

#[test]
fn commitment_agrees_with_the_scale_codec() {
    let cases: Vec<(Vec<([u8; 2], Vec<u8>)>, u32, u64)> = vec![
        (vec![], 0, 0),
        (vec![(*b"ef", vec![])], 100, 3),
        (vec![(*b"ab", vec![1; 70]), (*b"mh", vec![2; 32])], 7_000_000, u64::MAX),
        ((0..70u8).map(|i| ([i, i], vec![i; i as usize])).collect(), u32::MAX, 1 << 40),
    ];
    for (entries, block_number, validator_set_id) in cases {
        let expected = (entries.clone(), block_number, validator_set_id).encode();
        let c = commitment(entries, block_number, validator_set_id);
        assert_eq!(c.encode(), expected);
    }
}

#[test]
fn commitment_reads_back() {
    let c = commitment(vec![(*b"ab", vec![1; 70]), (*b"mh", vec![2; 32])], 4242, 77);
    let mut bytes = vec![0xee];
    bytes.extend(c.encode());
    let end = bytes.len();
    bytes.extend([9, 9, 9]);
    let (back, next) = Commitment::decode_at(&bytes, 1).unwrap();
    assert_eq!(next, end);
    assert_eq!(entries_of(&back), entries_of(&c));
    assert_eq!(back.block_number, 4242);
    assert_eq!(back.validator_set_id, 77);
    assert_eq!(back.encode(), &bytes[1..end]);
}

#[test]
fn block_number_bounds_survive_the_round_trip() {
    for block_number in [0u32, u32::MAX] {
        for validator_set_id in [0u64, u64::MAX] {
            let c = commitment(vec![(*b"ef", vec![])], block_number, validator_set_id);
            let bytes = c.encode();
            let (back, next) = Commitment::decode_at(&bytes, 0).unwrap();
            assert_eq!(next, bytes.len());
            assert_eq!(back.block_number, block_number);
            assert_eq!(back.validator_set_id, validator_set_id);
            assert_eq!(back.encode(), bytes);
        }
    }
}

#[test]
fn commitment_cut_short_is_refused() {
    let bytes = commitment(vec![(*b"ab", vec![1, 2, 3])], 5, 6).encode();
    for cut in 0..bytes.len() {
        assert_eq!(
            Commitment::decode_at(&bytes[..cut], 0).err(),
            Some(DecodeError::UnexpectedEnd),
            "cut at {}",
            cut
        );
    }
    assert!(Commitment::decode_at(&bytes, 0).is_ok());
    assert_eq!(Commitment::decode_at(&bytes, bytes.len() + 1).err(), Some(DecodeError::UnexpectedEnd));
}

#[test]
fn payload_with_a_long_count_form_is_refused() {
    assert_eq!(get_payload(&[0x05, 0x00, b'a', b'b', 0x00], 0).err(), Some(DecodeError::InvalidLength));
    assert_eq!(
        get_payload(&[0x04, b'a', b'b', 0x01, 0x00], 0).err(),
        Some(DecodeError::InvalidLength)
    );
}

#[test]
fn payload_that_promises_more_entries_than_it_holds_is_refused() {
    let mut one = Vec::new();
    put_payload(&mut one, &Payload::from_single_entry(*b"ef", vec![7]));
    assert_eq!(one, vec![0x04, b'e', b'f', 0x04, 7]);
    assert_eq!(get_payload(&one, 0).map(|(p, next)| (p.entries.len(), next)), Ok((1, 5)));
    let many = [vec![0x03, 0xff, 0xff, 0xff, 0xff], vec![b'e', b'f', 0x04, 7]].concat();
    assert_eq!(get_payload(&many, 0).err(), Some(DecodeError::UnexpectedEnd));
}
