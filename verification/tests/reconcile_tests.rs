use wvm_resolver::arweave_gql::{archive_tx_from_proof_result, retrieve_block_from_arweave,
    ArchiveRecord};
use wvm_resolver::arweave::get_tx_calldata_from_arweave;
use wvm_resolver::getters::{handle_calldata, reconcile};
use wvm_resolver::schemas::GetBlockFromTx;
use wvm_resolver::wvm_client::{retrieve_wvm_block_ref_from_txid, retrieve_wvm_block_ref_from_txtag};

#[test]
fn handle_calldata_prefers_archive_payload() {
    assert_eq!(
        handle_calldata("0xfeed".to_string(), "0x1234".to_string()),
        "0xfeed".to_string()
    );
}

#[test]
fn handle_calldata_falls_back_to_source_payload() {
    assert_eq!(
        handle_calldata("0x".to_string(), "0x1234".to_string()),
        "0x1234".to_string()
    );
}

#[test]
fn reconcile_flags_match_when_payloads_agree() {
    let block_ref = GetBlockFromTx::new(7, "0xaa".to_string(), "0xfeed".to_string());
    let res = reconcile("0xfeed".to_string(), "arweave-tx".to_string(), &block_ref, None);
    assert!(res.wvm_data_da);
    assert!(res.ar_data_archive);
    assert!(res.da_archive_is_equal_data);
    assert_eq!(res.calldata, "0xfeed");
    assert_eq!(res.wvm_block_hash, "0xaa");
    assert_eq!(res.arweave_block_hash, "arweave-tx");
    assert_eq!(res.wvm_block_id, 7);
}

#[test]
fn reconcile_flags_differ_when_payloads_differ() {
    let block_ref = GetBlockFromTx::new(7, "0xaa".to_string(), "0x1234".to_string());
    let res = reconcile("0xfeed".to_string(), "arweave-tx".to_string(), &block_ref, None);
    assert!(res.wvm_data_da);
    assert!(res.ar_data_archive);
    assert!(!res.da_archive_is_equal_data);
    assert_eq!(res.calldata, "0xfeed");
}

#[test]
fn end_to_end_archive_missing_falls_back_to_source_payload() {
    // The source chain reports block 688949 (0xa8335), hash "0xaa",
    // input "0x1234"; the archive search returns no records.
    let block_ref = retrieve_wvm_block_ref_from_txid(
        Some("0xaa".to_string()),
        Some("0xa8335".to_string()),
        Some("0x1234".to_string()),
    );
    assert_eq!(block_ref.number, 688949);

    let records: Vec<ArchiveRecord> = Vec::new();
    let archive_tx = retrieve_block_from_arweave(
        &records,
        &"owner".to_string(),
        &"Network".to_string(),
        &"Alphanet v0.3.1".to_string(),
    );
    assert_eq!(archive_tx, "TXID Not Found");

    // Nothing can be fetched under the sentinel identifier.
    let ar_calldata =
        get_tx_calldata_from_arweave(Vec::new(), "0xtx".to_string()).unwrap_or("0x".to_string());
    assert_eq!(ar_calldata, "0x");

    let res = reconcile(ar_calldata, archive_tx, &block_ref, None);
    assert_eq!(res.calldata, "0x1234");
    assert!(!res.wvm_data_da);
    assert!(!res.ar_data_archive);
    assert!(!res.da_archive_is_equal_data);
}

#[test]
fn tag_lookup_without_match_is_not_an_error() {
    let (block_ref, _txid) = retrieve_wvm_block_ref_from_txtag(None).expect("null result is no error");
    assert_eq!(
        (block_ref.number, block_ref.hash, block_ref.calldata),
        (0, "0x".to_string(), "0x".to_string())
    );
}

#[test]
fn locator_picks_first_matching_record() {
    let records = vec![
        ArchiveRecord {
            id: "newest".to_string(),
            owner: "somebody-else".to_string(),
            tags: vec![("Network".to_string(), "Alphanet v0.3.1".to_string())],
        },
        ArchiveRecord {
            id: "match-1".to_string(),
            owner: "owner".to_string(),
            tags: vec![
                ("Block-Number".to_string(), "688949".to_string()),
                ("Network".to_string(), "Alphanet v0.3.1".to_string()),
            ],
        },
        ArchiveRecord {
            id: "match-2".to_string(),
            owner: "owner".to_string(),
            tags: vec![("Network".to_string(), "Alphanet v0.3.1".to_string())],
        },
    ];
    let got = retrieve_block_from_arweave(
        &records,
        &"owner".to_string(),
        &"Network".to_string(),
        &"Alphanet v0.3.1".to_string(),
    );
    assert_eq!(got, "match-1");
}

#[test]
fn locator_maps_proof_result_or_defaults_empty() {
    assert_eq!(archive_tx_from_proof_result(Some("abc".to_string())), "abc");
    assert_eq!(archive_tx_from_proof_result(None), "");
}
