use wvm_resolver::schemas::{Block, DecodeError, EncodingUtils, WeaveVMArchiverBlock};

fn sample_block() -> Block {
    Block {
        base_fee_per_gas: Some("7".to_string()),
        blob_gas_used: None,
        difficulty: Some("0".to_string()),
        excess_blob_gas: None,
        extra_data: Some("0x".to_string()),
        gas_limit: Some("30000000".to_string()),
        gas_used: Some("21000".to_string()),
        hash: Some("0xbb".to_string()),
        logs_bloom: None,
        miner: None,
        mix_hash: Some("0x00".to_string()),
        nonce: Some("0x0000000000000000".to_string()),
        number: Some("688949".to_string()),
        parent_beacon_block_root: None,
        parent_hash: Some("0xcc".to_string()),
        receipts_root: Some("0xdd".to_string()),
        seal_fields: vec![],
        sha3_uncles: None,
        size: Some("1234".to_string()),
        state_root: Some("0xee".to_string()),
        timestamp: Some("1700000000".to_string()),
        total_difficulty: None,
        transactions_and_calldata: vec![
            ("0xdead".to_string(), "0xfeed".to_string()),
            ("0xcafe".to_string(), "0xf00d".to_string()),
        ],
    }
}

fn sample_archiver_block() -> WeaveVMArchiverBlock {
    WeaveVMArchiverBlock {
        base_fee_per_gas: Some("7".to_string()),
        blob_gas_used: None,
        difficulty: None,
        excess_blob_gas: None,
        extra_data: None,
        gas_limit: Some("30000000".to_string()),
        gas_used: None,
        hash: Some("0xar".to_string()),
        logs_bloom: None,
        miner: None,
        mix_hash: None,
        nonce: None,
        number: Some("42".to_string()),
        parent_beacon_block_root: None,
        parent_hash: None,
        receipts_root: None,
        seal_fields: vec!["seal".to_string()],
        sha3_uncles: None,
        size: None,
        state_root: None,
        timestamp: None,
        total_difficulty: None,
        transactions: vec!["0xdead".to_string(), "0xbeef".to_string()],
    }
}

#[test]
fn block_round_trips_through_the_codec() {
    let block = sample_block();
    let bytes = EncodingUtils::borsh_serialize(&block);
    let back = EncodingUtils::borsh_deserialize(bytes).expect("serialized block must decode");
    assert_eq!(back, block);
}

#[test]
fn archiver_block_round_trips_through_the_codec() {
    let block = sample_archiver_block();
    let bytes = EncodingUtils::wvm_archiver_borsh_serialize(&block);
    let back =
        EncodingUtils::wvm_archiver_borsh_deserialize(bytes).expect("serialized record must decode");
    assert_eq!(back, block);
}

#[test]
fn deserialize_rejects_empty_input_before_any_parse() {
    assert_eq!(
        EncodingUtils::borsh_deserialize(Vec::new()),
        Err(DecodeError::EmptyInput)
    );
    assert_eq!(
        EncodingUtils::wvm_archiver_borsh_deserialize(Vec::new()),
        Err(DecodeError::EmptyInput)
    );
}

#[test]
fn deserialize_rejects_unsupported_version_tag() {
    let block = sample_block();
    let mut bytes = EncodingUtils::borsh_serialize(&block);
    bytes[0] = 1;
    assert_eq!(
        EncodingUtils::borsh_deserialize(bytes),
        Err(DecodeError::UnsupportedVersion)
    );
}

#[test]
fn deserialize_rejects_trailing_bytes() {
    let block = sample_block();
    let mut bytes = EncodingUtils::borsh_serialize(&block);
    bytes.push(0);
    assert_eq!(
        EncodingUtils::borsh_deserialize(bytes),
        Err(DecodeError::Malformed)
    );
}

#[test]
fn deserialize_rejects_truncated_bytes() {
    let block = sample_block();
    let mut bytes = EncodingUtils::borsh_serialize(&block);
    bytes.truncate(bytes.len() - 1);
    assert_eq!(
        EncodingUtils::borsh_deserialize(bytes),
        Err(DecodeError::Malformed)
    );
}

#[test]
fn decompress_of_empty_input_is_empty_and_does_not_fail() {
    let out = EncodingUtils::brotli_decompress(Vec::new()).expect("decompress never fails");
    assert_eq!(out, Vec::<u8>::new());
}

#[test]
fn decompress_of_garbage_is_empty_not_an_error() {
    let out =
        EncodingUtils::brotli_decompress(vec![1, 2, 3, 4, 5]).expect("decompress never fails");
    assert_eq!(out, Vec::<u8>::new());
}

#[test]
fn decompress_inverts_compression() {
    let data: Vec<u8> = b"the archive network stores compressed block snapshots".to_vec();
    let mut compressed: Vec<u8> = Vec::new();
    {
        let mut writer = brotli::CompressorWriter::new(&mut compressed, 4096, 5, 22);
        std::io::Write::write_all(&mut writer, &data).expect("compression failed");
    }
    assert_ne!(compressed, data);
    let out = EncodingUtils::brotli_decompress(compressed).expect("decompress never fails");
    assert_eq!(out, data);
}
