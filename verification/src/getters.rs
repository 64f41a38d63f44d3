//! Reconciliation engine: combines the archive-derived payload with the
//! source-chain payload into the endpoint response record.

use vstd::prelude::*;
use crate::schemas::{GetBlockFromTx, HandlerGetCalldata};

verus! {

/// The sentinel payload meaning "no data": the bare hex prefix.
pub open spec fn no_data() -> Seq<char> {
    "0x"@
}

/// The archive yielded a payload iff it is not the sentinel.
pub open spec fn archive_has_payload(ar_calldata: Seq<char>) -> bool {
    ar_calldata != no_data()
}

/// The two tiers agree iff the archive yielded a payload and it equals the
/// source-chain payload.
pub open spec fn payloads_match(ar_calldata: Seq<char>, wvm_calldata: Seq<char>) -> bool {
    ar_calldata == wvm_calldata && archive_has_payload(ar_calldata)
}

/// Archive-first fallback: the archive payload when present, else the
/// source-chain payload.
pub open spec fn chosen_calldata(ar_calldata: Seq<char>, wvm_calldata: Seq<char>) -> Seq<char> {
    if ar_calldata == no_data() {
        wvm_calldata
    } else {
        ar_calldata
    }
}

/// True iff `s` is the sentinel payload `"0x"`.
pub fn is_no_data(s: &String) -> (r: bool)
    ensures
        r == (s@ == no_data()),
{
    let sentinel: String = "0x".to_owned();
    *s == sentinel
}

/// True iff the two strings hold the same characters.
pub fn string_eq(a: &String, b: &String) -> (r: bool)
    ensures
        r == (a@ == b@),
{
    *a == *b
}

/// Picks the payload to report: the archive payload unless it is the
/// sentinel, in which case the source-chain payload is the fallback.
pub fn handle_calldata(ar_calldata: String, wvm_calldata: String) -> (r: String)
    ensures
        r@ == chosen_calldata(ar_calldata@, wvm_calldata@),
{
    if is_no_data(&ar_calldata) {
        wvm_calldata
    } else {
        ar_calldata
    }
}

/// Builds the response record for one resolution: chooses the reported
/// payload and derives the three data-availability flags from the archive
/// payload and the source-chain payload.
pub fn reconcile(
    ar_calldata: String,
    arweave_block_hash: String,
    wvm_block: &GetBlockFromTx,
    war_decoded_calldata: Option<String>,
) -> (r: HandlerGetCalldata)
    ensures
        r.calldata@ == chosen_calldata(ar_calldata@, wvm_block.calldata@),
        r.arweave_block_hash == arweave_block_hash,
        r.wvm_block_hash == wvm_block.hash,
        r.wvm_block_id == wvm_block.number as u32,
        r.war_decoded_calldata == war_decoded_calldata,
        r.wvm_data_da == archive_has_payload(ar_calldata@),
        r.ar_data_archive == archive_has_payload(ar_calldata@),
        r.da_archive_is_equal_data == payloads_match(ar_calldata@, wvm_block.calldata@),
{
    let wvm_data_da = !is_no_data(&ar_calldata);
    let ar_data_archive = wvm_data_da;
    let da_archive_is_equal_data = string_eq(&ar_calldata, &wvm_block.calldata) && wvm_data_da;
    let calldata = handle_calldata(ar_calldata, wvm_block.calldata.clone());
    HandlerGetCalldata::new(
        calldata,
        arweave_block_hash,
        wvm_block.hash.clone(),
        #[verifier::truncate] (wvm_block.number as u32),
        war_decoded_calldata,
        wvm_data_da,
        ar_data_archive,
        da_archive_is_equal_data,
    )
}

/// Law: a match verdict implies the archive had a payload and that it equals
/// the source-chain payload; and when the archive had no payload, the chosen
/// calldata falls back to the source-chain payload.
pub proof fn lemma_reconcile_flags(ar_calldata: Seq<char>, wvm_calldata: Seq<char>)
    ensures
        payloads_match(ar_calldata, wvm_calldata) ==> archive_has_payload(ar_calldata)
            && ar_calldata == wvm_calldata,
        !archive_has_payload(ar_calldata) ==> chosen_calldata(ar_calldata, wvm_calldata)
            == wvm_calldata,
{
}

} // verus!
