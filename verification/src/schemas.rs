//! Data model: the block reference taken from the source chain, the response
//! record of the calldata endpoints, and the two archived-block schemas.

use vstd::prelude::*;
use vstd::utf8::encode_utf8;

verus! {

/// Marker type carrying the encoding helpers (compression and the versioned
/// block schema); the methods live in `codec` and are re-exposed here.
pub struct EncodingUtils;

/// Why a byte string failed to decode into a block record.
#[derive(Debug, Clone, Copy, PartialEq, Eq, Structural)]
pub enum DecodeError {
    /// The input held no bytes at all.
    EmptyInput,
    /// The leading schema-version tag is not a version this crate decodes.
    UnsupportedVersion,
    /// The bytes do not follow the schema (or leave trailing garbage).
    Malformed,
    /// A hex payload held a character outside `0-9a-fA-F` or an odd digit count.
    BadHex,
}

/// Sender recovery failed: the signature fields do not yield an address.
#[derive(Debug, Clone, Copy, PartialEq, Eq, Structural)]
pub struct SignatureError;

/// Where a transaction sits on the source chain: its block number and hash,
/// and the transaction's own payload as a `0x`-prefixed hex string.
#[derive(Debug, Clone, PartialEq)]
pub struct GetBlockFromTx {
    pub number: u64,
    pub hash: String,
    pub calldata: String,
}

impl GetBlockFromTx {
    pub fn new(number: u64, hash: String, calldata: String) -> (r: Self)
        ensures
            r.number == number,
            r.hash == hash,
            r.calldata == calldata,
    {
        GetBlockFromTx { number, hash, calldata }
    }
}

/// The reconciliation verdict handed back by the calldata endpoints.
#[derive(Debug, Clone, PartialEq)]
pub struct HandlerGetCalldata {
    pub calldata: String,
    pub arweave_block_hash: String,
    pub wvm_block_hash: String,
    pub wvm_block_id: u32,
    pub war_decoded_calldata: Option<String>,
    pub wvm_data_da: bool,
    pub ar_data_archive: bool,
    pub da_archive_is_equal_data: bool,
}

impl HandlerGetCalldata {
    pub fn new(
        calldata: String,
        arweave_block_hash: String,
        wvm_block_hash: String,
        wvm_block_id: u32,
        war_decoded_calldata: Option<String>,
        wvm_data_da: bool,
        ar_data_archive: bool,
        da_archive_is_equal_data: bool,
    ) -> (r: HandlerGetCalldata)
        ensures
            r.calldata == calldata,
            r.arweave_block_hash == arweave_block_hash,
            r.wvm_block_hash == wvm_block_hash,
            r.wvm_block_id == wvm_block_id,
            r.war_decoded_calldata == war_decoded_calldata,
            r.wvm_data_da == wvm_data_da,
            r.ar_data_archive == ar_data_archive,
            r.da_archive_is_equal_data == da_archive_is_equal_data,
    {
        HandlerGetCalldata {
            calldata,
            arweave_block_hash,
            wvm_block_hash,
            wvm_block_id,
            war_decoded_calldata,
            wvm_data_da,
            ar_data_archive,
            da_archive_is_equal_data,
        }
    }
}

/// An archived block as stored on the archive network: nullable header fields
/// plus the ordered `(transaction hash, calldata)` pairs of the block.
#[derive(Debug, Clone, PartialEq)]
pub struct Block {
    pub base_fee_per_gas: Option<String>,
    pub blob_gas_used: Option<String>,
    pub difficulty: Option<String>,
    pub excess_blob_gas: Option<String>,
    pub extra_data: Option<String>,
    pub gas_limit: Option<String>,
    pub gas_used: Option<String>,
    pub hash: Option<String>,
    pub logs_bloom: Option<String>,
    pub miner: Option<String>,
    pub mix_hash: Option<String>,
    pub nonce: Option<String>,
    pub number: Option<String>,
    pub parent_beacon_block_root: Option<String>,
    pub parent_hash: Option<String>,
    pub receipts_root: Option<String>,
    pub seal_fields: Vec<String>,
    pub sha3_uncles: Option<String>,
    pub size: Option<String>,
    pub state_root: Option<String>,
    pub timestamp: Option<String>,
    pub total_difficulty: Option<String>,
    pub transactions_and_calldata: Vec<(String, String)>,
}

/// The nested archival record embedded inside a matched calldata blob: the
/// same header fields, but a flat list of transaction identifiers.
#[derive(Debug, Clone, PartialEq)]
pub struct WeaveVMArchiverBlock {
    pub base_fee_per_gas: Option<String>,
    pub blob_gas_used: Option<String>,
    pub difficulty: Option<String>,
    pub excess_blob_gas: Option<String>,
    pub extra_data: Option<String>,
    pub gas_limit: Option<String>,
    pub gas_used: Option<String>,
    pub hash: Option<String>,
    pub logs_bloom: Option<String>,
    pub miner: Option<String>,
    pub mix_hash: Option<String>,
    pub nonce: Option<String>,
    pub number: Option<String>,
    pub parent_beacon_block_root: Option<String>,
    pub parent_hash: Option<String>,
    pub receipts_root: Option<String>,
    pub seal_fields: Vec<String>,
    pub sha3_uncles: Option<String>,
    pub size: Option<String>,
    pub state_root: Option<String>,
    pub timestamp: Option<String>,
    pub total_difficulty: Option<String>,
    pub transactions: Vec<String>,
}

/// Ghost mirror of `Block`: strings as character sequences.
#[verifier::ext_equal]
pub struct BlockModel {
    pub base_fee_per_gas: Option<Seq<char>>,
    pub blob_gas_used: Option<Seq<char>>,
    pub difficulty: Option<Seq<char>>,
    pub excess_blob_gas: Option<Seq<char>>,
    pub extra_data: Option<Seq<char>>,
    pub gas_limit: Option<Seq<char>>,
    pub gas_used: Option<Seq<char>>,
    pub hash: Option<Seq<char>>,
    pub logs_bloom: Option<Seq<char>>,
    pub miner: Option<Seq<char>>,
    pub mix_hash: Option<Seq<char>>,
    pub nonce: Option<Seq<char>>,
    pub number: Option<Seq<char>>,
    pub parent_beacon_block_root: Option<Seq<char>>,
    pub parent_hash: Option<Seq<char>>,
    pub receipts_root: Option<Seq<char>>,
    pub seal_fields: Seq<Seq<char>>,
    pub sha3_uncles: Option<Seq<char>>,
    pub size: Option<Seq<char>>,
    pub state_root: Option<Seq<char>>,
    pub timestamp: Option<Seq<char>>,
    pub total_difficulty: Option<Seq<char>>,
    pub transactions_and_calldata: Seq<(Seq<char>, Seq<char>)>,
}

/// Ghost mirror of `WeaveVMArchiverBlock`.
#[verifier::ext_equal]
pub struct ArchiverBlockModel {
    pub base_fee_per_gas: Option<Seq<char>>,
    pub blob_gas_used: Option<Seq<char>>,
    pub difficulty: Option<Seq<char>>,
    pub excess_blob_gas: Option<Seq<char>>,
    pub extra_data: Option<Seq<char>>,
    pub gas_limit: Option<Seq<char>>,
    pub gas_used: Option<Seq<char>>,
    pub hash: Option<Seq<char>>,
    pub logs_bloom: Option<Seq<char>>,
    pub miner: Option<Seq<char>>,
    pub mix_hash: Option<Seq<char>>,
    pub nonce: Option<Seq<char>>,
    pub number: Option<Seq<char>>,
    pub parent_beacon_block_root: Option<Seq<char>>,
    pub parent_hash: Option<Seq<char>>,
    pub receipts_root: Option<Seq<char>>,
    pub seal_fields: Seq<Seq<char>>,
    pub sha3_uncles: Option<Seq<char>>,
    pub size: Option<Seq<char>>,
    pub state_root: Option<Seq<char>>,
    pub timestamp: Option<Seq<char>>,
    pub total_difficulty: Option<Seq<char>>,
    pub transactions: Seq<Seq<char>>,
}

pub open spec fn opt_view(s: Option<String>) -> Option<Seq<char>> {
    match s {
        Some(v) => Some(v@),
        None => None,
    }
}

pub open spec fn strings_view(v: Seq<String>) -> Seq<Seq<char>> {
    v.map_values(|s: String| s@)
}

pub open spec fn pairs_view(v: Seq<(String, String)>) -> Seq<(Seq<char>, Seq<char>)> {
    v.map_values(|p: (String, String)| (p.0@, p.1@))
}

impl View for Block {
    type V = BlockModel;

    open spec fn view(&self) -> BlockModel {
        BlockModel {
            base_fee_per_gas: opt_view(self.base_fee_per_gas),
            blob_gas_used: opt_view(self.blob_gas_used),
            difficulty: opt_view(self.difficulty),
            excess_blob_gas: opt_view(self.excess_blob_gas),
            extra_data: opt_view(self.extra_data),
            gas_limit: opt_view(self.gas_limit),
            gas_used: opt_view(self.gas_used),
            hash: opt_view(self.hash),
            logs_bloom: opt_view(self.logs_bloom),
            miner: opt_view(self.miner),
            mix_hash: opt_view(self.mix_hash),
            nonce: opt_view(self.nonce),
            number: opt_view(self.number),
            parent_beacon_block_root: opt_view(self.parent_beacon_block_root),
            parent_hash: opt_view(self.parent_hash),
            receipts_root: opt_view(self.receipts_root),
            seal_fields: strings_view(self.seal_fields@),
            sha3_uncles: opt_view(self.sha3_uncles),
            size: opt_view(self.size),
            state_root: opt_view(self.state_root),
            timestamp: opt_view(self.timestamp),
            total_difficulty: opt_view(self.total_difficulty),
            transactions_and_calldata: pairs_view(self.transactions_and_calldata@),
        }
    }
}

impl View for WeaveVMArchiverBlock {
    type V = ArchiverBlockModel;

    open spec fn view(&self) -> ArchiverBlockModel {
        ArchiverBlockModel {
            base_fee_per_gas: opt_view(self.base_fee_per_gas),
            blob_gas_used: opt_view(self.blob_gas_used),
            difficulty: opt_view(self.difficulty),
            excess_blob_gas: opt_view(self.excess_blob_gas),
            extra_data: opt_view(self.extra_data),
            gas_limit: opt_view(self.gas_limit),
            gas_used: opt_view(self.gas_used),
            hash: opt_view(self.hash),
            logs_bloom: opt_view(self.logs_bloom),
            miner: opt_view(self.miner),
            mix_hash: opt_view(self.mix_hash),
            nonce: opt_view(self.nonce),
            number: opt_view(self.number),
            parent_beacon_block_root: opt_view(self.parent_beacon_block_root),
            parent_hash: opt_view(self.parent_hash),
            receipts_root: opt_view(self.receipts_root),
            seal_fields: strings_view(self.seal_fields@),
            sha3_uncles: opt_view(self.sha3_uncles),
            size: opt_view(self.size),
            state_root: opt_view(self.state_root),
            timestamp: opt_view(self.timestamp),
            total_difficulty: opt_view(self.total_difficulty),
            transactions: strings_view(self.transactions@),
        }
    }
}

/// A string field is serializable when its byte encoding fits the schema's
/// 32-bit length prefix.
pub open spec fn wf_field(s: Seq<char>) -> bool {
    encode_utf8(s).len() < 0x1_0000_0000
}

pub open spec fn wf_opt_field(s: Option<Seq<char>>) -> bool {
    match s {
        Some(v) => wf_field(v),
        None => true,
    }
}

pub open spec fn wf_fields(v: Seq<Seq<char>>) -> bool {
    &&& v.len() < 0x1_0000_0000
    &&& forall|i: int| 0 <= i < v.len() ==> wf_field(#[trigger] v[i])
}

pub open spec fn wf_pairs(v: Seq<(Seq<char>, Seq<char>)>) -> bool {
    &&& v.len() < 0x1_0000_0000
    &&& forall|i: int| 0 <= i < v.len() ==> wf_field(#[trigger] v[i].0) && wf_field(v[i].1)
}

impl BlockModel {
    /// Every length in the record fits its 32-bit prefix, so the record can
    /// be serialized.
    pub open spec fn wf(self) -> bool {
        &&& wf_opt_field(self.base_fee_per_gas)
        &&& wf_opt_field(self.blob_gas_used)
        &&& wf_opt_field(self.difficulty)
        &&& wf_opt_field(self.excess_blob_gas)
        &&& wf_opt_field(self.extra_data)
        &&& wf_opt_field(self.gas_limit)
        &&& wf_opt_field(self.gas_used)
        &&& wf_opt_field(self.hash)
        &&& wf_opt_field(self.logs_bloom)
        &&& wf_opt_field(self.miner)
        &&& wf_opt_field(self.mix_hash)
        &&& wf_opt_field(self.nonce)
        &&& wf_opt_field(self.number)
        &&& wf_opt_field(self.parent_beacon_block_root)
        &&& wf_opt_field(self.parent_hash)
        &&& wf_opt_field(self.receipts_root)
        &&& wf_fields(self.seal_fields)
        &&& wf_opt_field(self.sha3_uncles)
        &&& wf_opt_field(self.size)
        &&& wf_opt_field(self.state_root)
        &&& wf_opt_field(self.timestamp)
        &&& wf_opt_field(self.total_difficulty)
        &&& wf_pairs(self.transactions_and_calldata)
    }
}

impl ArchiverBlockModel {
    /// Every length in the record fits its 32-bit prefix.
    pub open spec fn wf(self) -> bool {
        &&& wf_opt_field(self.base_fee_per_gas)
        &&& wf_opt_field(self.blob_gas_used)
        &&& wf_opt_field(self.difficulty)
        &&& wf_opt_field(self.excess_blob_gas)
        &&& wf_opt_field(self.extra_data)
        &&& wf_opt_field(self.gas_limit)
        &&& wf_opt_field(self.gas_used)
        &&& wf_opt_field(self.hash)
        &&& wf_opt_field(self.logs_bloom)
        &&& wf_opt_field(self.miner)
        &&& wf_opt_field(self.mix_hash)
        &&& wf_opt_field(self.nonce)
        &&& wf_opt_field(self.number)
        &&& wf_opt_field(self.parent_beacon_block_root)
        &&& wf_opt_field(self.parent_hash)
        &&& wf_opt_field(self.receipts_root)
        &&& wf_fields(self.seal_fields)
        &&& wf_opt_field(self.sha3_uncles)
        &&& wf_opt_field(self.size)
        &&& wf_opt_field(self.state_root)
        &&& wf_opt_field(self.timestamp)
        &&& wf_opt_field(self.total_difficulty)
        &&& wf_fields(self.transactions)
    }
}

} // verus!
