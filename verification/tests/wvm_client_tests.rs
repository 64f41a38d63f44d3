use wvm_resolver::hex::{hex_decode, hex_encode};
use wvm_resolver::schemas::DecodeError;
use wvm_resolver::tx::{compute_signing_hash, decode_raw_transaction, recover_sender};
use wvm_resolver::wvm_client::{retrieve_wvm_block_ref_from_txid, retrieve_wvm_block_ref_from_txtag};

fn be(v: &Vec<u8>) -> u128 {
    let mut acc: u128 = 0;
    for b in v {
        acc = acc * 256 + *b as u128;
    }
    acc
}

#[test]
fn test_retrieve_txtag_with_mock() {
    // Raw transaction bytes, as the tag lookup would hand them back.
    let raw_tx_hex = "0x02f8768301b4a101843b9aca008477359400832dc6c094976ea74026e726554db657fa54763abd0c3a0aa988016345785d8a000080c001a07ca9e6ab9c6b14cd280a7b45e7d41f43d910210bcfe4b1ad5765c035549d1e02a0023813086c7e5ff15e793299547bf41e278548148d3b61e9f65bebe938f80492";
    let raw_tx_bytes = hex_decode(raw_tx_hex.trim_start_matches("0x"))
        .expect("Could not decode hex string");

    let _tag = ["testtag1".to_string(), "testtag2".to_string()];

    let (block_ref, _txid) = retrieve_wvm_block_ref_from_txtag(Some(raw_tx_bytes))
        .expect("tag resolution failed");

    assert_eq!(block_ref.hash, "0x", "Expected default blockHash");
    assert_eq!(block_ref.number, 0, "Expected default blockNumber");
    assert_eq!(block_ref.calldata, "0x", "Expected default input");
}

#[test]
fn test_decode_raw_transaction() {
    // Raw fee-market transaction bytes.
    let raw_tx_hex = "0x02f8768301b4a103843b9aca008477359400832dc6c094976ea74026e726554db657fa54763abd0c3a0aa988016345785d8a000080c001a0868fae4ba090629d828ab1838896280fc3325e8b0502451b028e0ca019c5b408a07a450c2e3533e16fcd55cded2afde7b37a700cdcc19697c31f43e85c2ebeb160";
    let raw_tx_bytes = hex_decode(raw_tx_hex.trim_start_matches("0x"))
        .expect("Decoding hex string failed");

    let tx = decode_raw_transaction(&raw_tx_bytes).expect("Failed to decode RLP transaction");

    println!("Decoded transaction: {:#?}", tx);

    // 1. Chain ID should be 111777.
    assert_eq!(be(&tx.chain_id), 111777, "Chain ID mismatch");

    // 2. Nonce should be 3.
    assert_eq!(be(&tx.nonce), 3, "Nonce mismatch");

    // 3. The 'to' address should match.
    let expected_to = hex_decode("976ea74026e726554db657fa54763abd0c3a0aa9")
        .expect("Invalid 'to' address");
    assert_eq!(
        tx.to.clone().expect("Missing 'to' address"),
        expected_to,
        "'To' address mismatch"
    );

    // 4. Value should be 0x16345785d8a0000, which is 100000000000000000.
    let expected_value: u128 = "100000000000000000".parse().expect("Invalid expected value");
    assert_eq!(be(&tx.value), expected_value, "Value mismatch");

    // 5. Gas limit should be 3000000.
    assert_eq!(be(&tx.gas_limit), 3000000, "Gas limit mismatch");

    // 6. Max fee per gas should be 2000000000.
    assert_eq!(be(&tx.max_fee_per_gas), 2000000000, "Max fee per gas mismatch");

    // 7. Max priority fee per gas should be 1000000000.
    assert_eq!(
        be(&tx.max_priority_fee_per_gas),
        1000000000,
        "Max priority fee per gas mismatch"
    );

    // 8. Recover and verify the sender ("from") address.
    let expected_from = "0x9965507D1a55bcC2695C58ba16FB37d819B0A4dc".to_lowercase();

    let sighash = compute_signing_hash(&tx);
    let recovered_from = recover_sender(&tx, &sighash).expect("Failed to recover sender");

    assert_eq!(
        format!("0x{}", hex_encode(&recovered_from)),
        expected_from,
        "Sender address mismatch"
    );
}

#[test]
fn tag_resolution_without_match_yields_defaults() {
    let (block_ref, txid) = retrieve_wvm_block_ref_from_txtag(None).expect("no-match must not fail");
    assert_eq!(block_ref.number, 0);
    assert_eq!(block_ref.hash, "0x");
    assert_eq!(block_ref.calldata, "0x");
    assert_eq!(txid, "0x");
}

#[test]
fn tag_resolution_carries_decoded_input() {
    // A transaction whose input is the two bytes 0xbeef.
    // [chain_id=1, nonce=0, prio=1, maxfee=1, gas=0x5208, to=20 bytes,
    //  value=0, input=0xbeef, access=[], v=1, r=0x01, s=0x01]
    let raw_tx_hex = "02e4018001018252089400000000000000000000000000000000000000008082beefc0010101";
    let raw = hex_decode(raw_tx_hex).expect("test vector must be hex");
    let (block_ref, txid) = retrieve_wvm_block_ref_from_txtag(Some(raw)).expect("must decode");
    assert_eq!(block_ref.calldata, "0xbeef");
    assert_eq!(block_ref.number, 0);
    assert_eq!(block_ref.hash, "0x");
    // The reported hash is the standard 32-byte hash of the raw bytes.
    assert_eq!(txid.len(), 2 + 64);
    assert!(txid.starts_with("0x"));
}

#[test]
fn tag_resolution_rejects_malformed_bytes() {
    let garbage = vec![0x02u8, 0xff, 0x00];
    assert_eq!(
        retrieve_wvm_block_ref_from_txtag(Some(garbage)),
        Err(DecodeError::Malformed)
    );
}

#[test]
fn block_ref_from_reported_fields() {
    // blockNumber 688949 is 0xa8335.
    let r = retrieve_wvm_block_ref_from_txid(
        Some("0xaa".to_string()),
        Some("0xa8335".to_string()),
        Some("0x1234".to_string()),
    );
    assert_eq!(r.number, 688949);
    assert_eq!(r.hash, "0xaa");
    assert_eq!(r.calldata, "0x1234");
}

#[test]
fn block_ref_defaults_when_fields_absent() {
    let r = retrieve_wvm_block_ref_from_txid(None, None, None);
    assert_eq!(r.number, 0);
    assert_eq!(r.hash, "0x");
    assert_eq!(r.calldata, "0x");
}

#[test]
fn block_ref_number_defaults_on_bad_hex() {
    let r = retrieve_wvm_block_ref_from_txid(
        Some("0xaa".to_string()),
        Some("0xzz".to_string()),
        None,
    );
    assert_eq!(r.number, 0);
    let r = retrieve_wvm_block_ref_from_txid(None, Some("0x".to_string()), None);
    assert_eq!(r.number, 0);
}

#[test]
fn decode_handles_long_form_payloads() {
    // A creation transaction with a 60-byte input: both the input item and
    // the surrounding list use the long length form.
    // [chain_id=1, nonce=0, prio=1, maxfee=1, gas=0x5208, to=(), value=0,
    //  input=0xaa*60, access=[], v=0, r=0x01, s=0x01]
    let mut hex_tx = String::from("02f84b0180010182520880");
    hex_tx.push_str("80b83c");
    for _ in 0..60 {
        hex_tx.push_str("aa");
    }
    hex_tx.push_str("c0800101");
    let raw = hex_decode(&hex_tx).expect("test vector must be hex");
    let tx = decode_raw_transaction(&raw).expect("long-form transaction must decode");
    assert_eq!(tx.to, None);
    assert_eq!(tx.input, vec![0xaa; 60]);
    assert_eq!(tx.v, 0);
    // The signing payload of this transaction also takes the long form.
    let sighash = compute_signing_hash(&tx);
    assert_eq!(sighash.len(), 32);
}
