use beacon_relayer::publisher::{
    method_selector, publish, to_hex_text, DestinationCall, DestinationCallTarget,
};
use parity_scale_codec::Encode;

#[test]
fn hex_text_is_lower_case_with_prefix() {
    assert_eq!(to_hex_text(&[]), b"0x".to_vec());
    assert_eq!(to_hex_text(&[0x00]), b"0x00".to_vec());
    assert_eq!(to_hex_text(&[0x0a, 0xf0, 0x9b]), b"0x0af09b".to_vec());
    assert_eq!(to_hex_text(&[0xde, 0xad, 0xbe, 0xef]), b"0xdeadbeef".to_vec());
    assert_eq!(to_hex_text(&[0x01, 0x23, 0x45, 0x67, 0x89, 0xab, 0xcd, 0xef]), b"0x0123456789abcdef".to_vec());
}

#[test]
fn hex_text_agrees_with_formatting_for_every_byte() {
    for b in 0..=255u8 {
        assert_eq!(to_hex_text(&[b]), format!("0x{:02x}", b).into_bytes());
    }
}

#[test]
fn selector_is_the_start_of_the_digest() {
    let digest = sp_core::blake2_256(b"write_block");
    assert_eq!(method_selector(b"write_block"), [digest[0], digest[1], digest[2], digest[3]]);
    assert_ne!(method_selector(b"write_block"), *b"writ");
    assert_ne!(method_selector(b"write_block"), method_selector(b"read_block"));
}

#[test]
fn selector_of_the_empty_name() {
    // BLAKE2b-256 of the empty string starts with 0e 57 51 c0.
    assert_eq!(method_selector(b""), [0x0e, 0x57, 0x51, 0xc0]);
}

#[test]
fn contract_call_is_selector_block_number_and_text() {
    let signature = [0xab, 0xcd, 0x01];
    let call = publish(DestinationCallTarget::Contract, 100, &signature);
    let mut expected = method_selector(b"write_block").to_vec();
    expected.extend((100u32, String::from("0xabcd01")).encode());
    match call {
        DestinationCall::Contract { data } => {
            assert_eq!(data, expected);
            assert_eq!(&data[4..], &[100, 0, 0, 0, 0x20, b'0', b'x', b'a', b'b', b'c', b'd', b'0', b'1']);
        },
        other => panic!("not a contract call: {:?}", other),
    }
}

#[test]
fn contract_call_of_a_full_signature() {
    let signature: Vec<u8> = (0..112u8).collect();
    let text: String = format!(
        "0x{}",
        signature.iter().map(|b| format!("{:02x}", b)).collect::<Vec<_>>().concat()
    );
    assert_eq!(text.len(), 226);
    let mut expected = method_selector(b"write_block").to_vec();
    expected.extend((u32::MAX, text).encode());
    match publish(DestinationCallTarget::Contract, u32::MAX, &signature) {
        DestinationCall::Contract { data } => assert_eq!(data, expected),
        other => panic!("not a contract call: {:?}", other),
    }
}

#[test]
fn pallet_call_takes_the_signature_as_a_list_of_one() {
    let signature = vec![7u8; 112];
    match publish(DestinationCallTarget::Pallet, 100, &signature) {
        DestinationCall::WritePulse { signatures, block_number } => {
            assert_eq!(signatures, vec![signature]);
            assert_eq!(block_number, 100);
        },
        other => panic!("not the chain's own call: {:?}", other),
    }
}

#[test]
fn pallet_call_at_the_block_number_bounds() {
    for n in [0u32, u32::MAX] {
        match publish(DestinationCallTarget::Pallet, n, &[]) {
            DestinationCall::WritePulse { signatures, block_number } => {
                assert_eq!(signatures, vec![Vec::<u8>::new()]);
                assert_eq!(block_number, n);
            },
            other => panic!("not the chain's own call: {:?}", other),
        }
    }
}
