use wvm_resolver::hex::{hex_decode, hex_encode, strip_hex_prefix};
use wvm_resolver::schemas::{DecodeError, EncodingUtils, WeaveVMArchiverBlock};
use wvm_resolver::wvm_client::decode_calldata_to_wvm_archiver;

#[test]
fn hex_encode_is_lower_case_two_digits_per_byte() {
    assert_eq!(hex_encode(&vec![0xde, 0xad, 0x01]), "dead01");
    assert_eq!(hex_encode(&Vec::new()), "");
}

#[test]
fn hex_decode_accepts_both_cases_and_round_trips() {
    assert_eq!(hex_decode("DEad01"), Some(vec![0xde, 0xad, 0x01]));
    let bytes = vec![0u8, 1, 2, 250, 255];
    assert_eq!(hex_decode(&hex_encode(&bytes)), Some(bytes));
}

#[test]
fn hex_decode_rejects_odd_length_and_bad_digits() {
    assert_eq!(hex_decode("abc"), None);
    assert_eq!(hex_decode("zz"), None);
}

#[test]
fn strip_hex_prefix_removes_one_leading_marker() {
    assert_eq!(strip_hex_prefix("0xdead"), "dead");
    assert_eq!(strip_hex_prefix("dead"), "dead");
    assert_eq!(strip_hex_prefix("0x"), "");
}

fn empty_archiver_block() -> WeaveVMArchiverBlock {
    WeaveVMArchiverBlock {
        base_fee_per_gas: None,
        blob_gas_used: None,
        difficulty: None,
        excess_blob_gas: None,
        extra_data: None,
        gas_limit: None,
        gas_used: None,
        hash: Some("0xnested".to_string()),
        logs_bloom: None,
        miner: None,
        mix_hash: None,
        nonce: None,
        number: Some("688949".to_string()),
        parent_beacon_block_root: None,
        parent_hash: None,
        receipts_root: None,
        seal_fields: vec![],
        sha3_uncles: None,
        size: None,
        state_root: None,
        timestamp: None,
        total_difficulty: None,
        transactions: vec!["0xdead".to_string()],
    }
}

#[test]
fn archiver_decode_path_round_trips_a_nested_record() {
    let record = empty_archiver_block();
    let serialized = EncodingUtils::wvm_archiver_borsh_serialize(&record);
    let mut compressed: Vec<u8> = Vec::new();
    {
        let mut writer = brotli::CompressorWriter::new(&mut compressed, 4096, 5, 22);
        std::io::Write::write_all(&mut writer, &serialized).expect("compression failed");
    }
    let calldata = format!("0x{}", hex_encode(&compressed));
    let decoded = decode_calldata_to_wvm_archiver(&calldata).expect("decoding failed");
    assert_eq!(decoded, record);
}

#[test]
fn archiver_decode_path_surfaces_bad_hex() {
    assert_eq!(
        decode_calldata_to_wvm_archiver(&"0xzz".to_string()),
        Err(DecodeError::BadHex)
    );
}

#[test]
fn archiver_decode_path_surfaces_empty_payload() {
    // "0x" alone decompresses to nothing, which the strict path rejects.
    assert_eq!(
        decode_calldata_to_wvm_archiver(&"0x".to_string()),
        Err(DecodeError::EmptyInput)
    );
}
