use wvm_resolver::arweave::{get_tx_calldata_from_arweave, hashes_equal, find_tx_calldata};
use wvm_resolver::schemas::{Block, EncodingUtils};

fn block_with_pairs(pairs: Vec<(String, String)>) -> Block {
    Block {
        base_fee_per_gas: None,
        blob_gas_used: None,
        difficulty: None,
        excess_blob_gas: None,
        extra_data: None,
        gas_limit: None,
        gas_used: None,
        hash: Some("0xblock".to_string()),
        logs_bloom: None,
        miner: None,
        mix_hash: None,
        nonce: None,
        number: None,
        parent_beacon_block_root: None,
        parent_hash: None,
        receipts_root: None,
        seal_fields: vec![],
        sha3_uncles: None,
        size: None,
        state_root: None,
        timestamp: None,
        total_difficulty: None,
        transactions_and_calldata: pairs,
    }
}

fn compress(data: &[u8]) -> Vec<u8> {
    let mut compressed: Vec<u8> = Vec::new();
    {
        let mut writer = brotli::CompressorWriter::new(&mut compressed, 4096, 5, 22);
        std::io::Write::write_all(&mut writer, data).expect("compression failed");
    }
    compressed
}

fn archived(pairs: Vec<(String, String)>) -> Vec<u8> {
    let block = block_with_pairs(pairs);
    compress(&EncodingUtils::borsh_serialize(&block))
}

#[test]
fn hash_matching_is_case_insensitive() {
    assert!(hashes_equal(&"0xABC".to_string(), &"0xabc".to_string()));
    assert!(hashes_equal(&"0xDeAdBeEf".to_string(), &"0xdeadbeef".to_string()));
    assert!(!hashes_equal(&"0xabc".to_string(), &"0xabd".to_string()));
}

#[test]
fn hash_matching_tolerates_whitespace() {
    assert!(hashes_equal(&" 0xabc ".to_string(), &"0xabc".to_string()));
    assert!(hashes_equal(&"\t0xABC\n".to_string(), &" 0xabc".to_string()));
}

#[test]
fn matcher_returns_calldata_of_matching_hash_any_case() {
    let data = archived(vec![("0xdead".to_string(), "0xfeed".to_string())]);
    let got = get_tx_calldata_from_arweave(data, "0xDEAD".to_string());
    assert_eq!(got, Ok("0xfeed".to_string()));
}

#[test]
fn matcher_returns_first_match_in_block_order() {
    let block = block_with_pairs(vec![
        ("0xaaaa".to_string(), "0x01".to_string()),
        ("0xAAAA".to_string(), "0x02".to_string()),
    ]);
    assert_eq!(find_tx_calldata(&block, &"0xaaaa".to_string()), Some("0x01".to_string()));
}

#[test]
fn matcher_reports_hard_error_when_block_lacks_target() {
    let data = archived(vec![("0xdead".to_string(), "0xfeed".to_string())]);
    let got = get_tx_calldata_from_arweave(data, "0xother".to_string());
    assert_eq!(got, Err("Error retrieving calldata from Arweave".to_string()));
}

#[test]
fn matcher_treats_empty_fetch_as_missing_archive() {
    let got = get_tx_calldata_from_arweave(Vec::new(), "0xdead".to_string());
    assert_eq!(got, Ok("0x".to_string()));
}

#[test]
fn matcher_treats_undecodable_archive_as_missing() {
    // Valid compression around bytes that are not a valid block.
    let data = compress(&[9, 9, 9, 9]);
    let got = get_tx_calldata_from_arweave(data, "0xdead".to_string());
    assert_eq!(got, Ok("0x".to_string()));
}

#[test]
fn end_to_end_archive_match_reconciles_equal_payloads() {
    // The archive holds ("0xdead", "0xfeed") and the source chain reports
    // the same payload: the verdict must be a match on the archive payload.
    let data = archived(vec![("0xdead".to_string(), "0xfeed".to_string())]);
    let ar_calldata = get_tx_calldata_from_arweave(data, "0xDEAD".to_string())
        .unwrap_or("0x".to_string());
    assert_eq!(ar_calldata, "0xfeed");

    let block_ref = wvm_resolver::schemas::GetBlockFromTx::new(
        688949,
        "0xaa".to_string(),
        "0xfeed".to_string(),
    );
    let res = wvm_resolver::getters::reconcile(
        ar_calldata,
        "archive-tx".to_string(),
        &block_ref,
        None,
    );
    assert_eq!(res.calldata, "0xfeed");
    assert!(res.wvm_data_da);
    assert!(res.ar_data_archive);
    assert!(res.da_archive_is_equal_data);
}
