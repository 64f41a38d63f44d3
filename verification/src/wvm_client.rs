//! Block reference resolver: maps what the source chain reports about a
//! transaction — by hash or by tag — into a `GetBlockFromTx`, and decodes a
//! matched calldata blob into the nested archiver record.

use vstd::prelude::*;
use vstd::string::StringExecFns;
use crate::codec::{sp_archiver, brotli_inflate_of};
use crate::hex::{hex_decode_spec, hex_encode_spec, strip_hex_prefix_spec, hex_digit_value,
    hex_decode, hex_encode, strip_hex_prefix, hex_digit};
use crate::schemas::{DecodeError, EncodingUtils, GetBlockFromTx, WeaveVMArchiverBlock,
    ArchiverBlockModel};
use crate::tx::{decode_raw_transaction, sp_decode_tx};

verus! {

/// The value of a run of hex digits, most significant first; undefined when
/// a character is no hex digit.
pub open spec fn hex_digits_val(s: Seq<char>) -> Option<int>
    decreases s.len(),
{
    if s.len() == 0 {
        Some(0)
    } else {
        match (hex_digits_val(s.drop_last()), hex_digit_value(s.last())) {
            (Some(v), Some(d)) => Some(16 * v + d),
            _ => None,
        }
    }
}

/// The value of a hex numeral: at least one digit, all of them valid.
pub open spec fn hex_num_val(s: Seq<char>) -> Option<int> {
    if s.len() == 0 {
        None
    } else {
        hex_digits_val(s)
    }
}

/// A failed digit anywhere spoils the whole numeral.
proof fn lemma_hex_digits_extend(s: Seq<char>, j: int)
    requires
        0 <= j <= s.len(),
        hex_digits_val(s.take(j)) is None,
    ensures
        hex_digits_val(s) is None,
    decreases s.len() - j,
{
    if j < s.len() {
        assert(s.take(j + 1).drop_last() =~= s.take(j));
        lemma_hex_digits_extend(s, j + 1);
    } else {
        assert(s.take(j) =~= s);
    }
}

/// Reading further digits never shrinks the value.
proof fn lemma_hex_digits_grow(s: Seq<char>, j: int)
    requires
        0 <= j <= s.len(),
        hex_digits_val(s.take(j)) is Some,
        hex_digits_val(s.take(j))->0 >= 0,
    ensures
        hex_digits_val(s) matches Some(v) ==> v >= hex_digits_val(s.take(j))->0,
    decreases s.len() - j,
{
    if j < s.len() {
        assert(s.take(j + 1).drop_last() =~= s.take(j));
        match hex_digit_value(s.take(j + 1).last()) {
            Some(d) => {
                lemma_hex_digits_grow(s, j + 1);
            },
            None => {
                lemma_hex_digits_extend(s, j + 1);
            },
        }
    } else {
        assert(s.take(j) =~= s);
    }
}

/// Parses a hex numeral (no prefix) into a 64-bit value; fails on an empty
/// or invalid numeral, or one whose value needs more than 64 bits.
#[verifier::loop_isolation(false)]
pub fn parse_hex_u64(s: &str) -> (r: Option<u64>)
    ensures
        r matches Some(v) ==> hex_num_val(s@) == Some(v as int),
        r is None ==> hex_num_val(s@) is None || (hex_num_val(s@) matches Some(v)
            && v >= 0x1_0000_0000_0000_0000),
{
    let n = s.unicode_len();
    if n == 0 {
        return None;
    }
    let mut v: u64 = 0;
    let mut i: usize = 0;
    proof {
        assert(s@.take(0) =~= Seq::<char>::empty());
    }
    while i < n
        invariant
            n == s@.len(),
            i <= n,
            hex_digits_val(s@.take(i as int)) == Some(v as int),
        decreases n - i,
    {
        let c = s.get_char(i);
        proof {
            assert(s@.take(i as int + 1).drop_last() =~= s@.take(i as int));
            assert(s@.take(i as int + 1).last() == s@[i as int]);
        }
        match hex_digit(c) {
            Some(d) => {
                if v > (u64::MAX - d as u64) / 16 {
                    proof {
                        lemma_hex_digits_grow(s@, i as int + 1);
                    }
                    return None;
                }
                v = v * 16 + d as u64;
            },
            None => {
                proof {
                    lemma_hex_digits_extend(s@, i as int + 1);
                }
                return None;
            },
        }
        i = i + 1;
    }
    proof {
        assert(s@.take(n as int) =~= s@);
    }
    Some(v)
}

/// The block number a reported hex string denotes: zero when the field is
/// absent, empty, malformed, or too large for 64 bits.
pub open spec fn block_number_of(hex_field: Option<Seq<char>>) -> u64 {
    match hex_field {
        None => 0,
        Some(h) => match hex_num_val(strip_hex_prefix_spec(h)) {
            Some(v) => if 0 <= v < 0x1_0000_0000_0000_0000 {
                v as u64
            } else {
                0
            },
            None => 0,
        },
    }
}

/// What a reported optional hex-string field falls back to: the bare `0x`.
pub open spec fn field_or_0x(f: Option<Seq<char>>) -> Seq<char> {
    match f {
        Some(v) => v,
        None => "0x"@,
    }
}

/// Builds the block reference from the fields the transaction-lookup call
/// reported: block hash and payload fall back to `"0x"`, and the block
/// number falls back to zero when absent or unparseable.
pub fn retrieve_wvm_block_ref_from_txid(
    block_hash: Option<String>,
    block_number_hex: Option<String>,
    input: Option<String>,
) -> (r: GetBlockFromTx)
    ensures
        r.hash@ == field_or_0x(crate::schemas::opt_view(block_hash)),
        r.calldata@ == field_or_0x(crate::schemas::opt_view(input)),
        r.number == block_number_of(crate::schemas::opt_view(block_number_hex)),
{
    let number: u64 = match &block_number_hex {
        None => 0,
        Some(h) => {
            let digits = strip_hex_prefix(h.as_str());
            match parse_hex_u64(digits) {
                Some(v) => v,
                None => 0,
            }
        },
    };
    let hash = match block_hash {
        Some(h) => h,
        None => "0x".to_owned(),
    };
    let calldata = match input {
        Some(c) => c,
        None => "0x".to_owned(),
    };
    GetBlockFromTx::new(number, hash, calldata)
}

/// What tag-based resolution yields for the bytes the custom lookup call
/// returned: the defaults `(0, "0x", "0x")` when there was no matching
/// transaction, else a reference carrying the decoded transaction's payload
/// as prefixed hex — block hash and number stay at their defaults, since a
/// raw transaction does not carry them.
pub open spec fn tag_block_ref_spec(raw: Option<Seq<u8>>) -> Result<
    (u64, Seq<char>, Seq<char>),
    DecodeError,
> {
    match raw {
        None => Ok((0u64, "0x"@, "0x"@)),
        Some(bytes) => match sp_decode_tx(bytes) {
            Ok(m) => Ok((0u64, "0x"@, "0x"@ + hex_encode_spec(m.input))),
            Err(e) => Err(e),
        },
    }
}

/// The transaction hash the tag path reports: the hash of the returned raw
/// bytes, or the bare `0x` when the lookup found nothing.
pub open spec fn tag_txid_spec(raw: Option<Seq<u8>>) -> Seq<char> {
    match raw {
        None => "0x"@,
        Some(bytes) => "0x"@ + hex_encode_spec(crate::tx::keccak_of(bytes)),
    }
}

/// Builds the block reference for a tag lookup from the raw transaction
/// bytes the call returned, when it returned any, together with the hash of
/// the matched transaction: no result yields the default reference rather
/// than an error, and undecodable bytes are the one hard failure.
pub fn retrieve_wvm_block_ref_from_txtag(raw: Option<Vec<u8>>) -> (r: Result<
    (GetBlockFromTx, String),
    DecodeError,
>)
    ensures
        match r {
            Ok(p) => tag_block_ref_spec(
                match raw {
                    Some(v) => Some(v@),
                    None => None,
                },
            ) == Ok::<(u64, Seq<char>, Seq<char>), DecodeError>(
                (p.0.number, p.0.hash@, p.0.calldata@),
            ) && p.1@ == tag_txid_spec(
                match raw {
                    Some(v) => Some(v@),
                    None => None,
                },
            ),
            Err(e) => tag_block_ref_spec(
                match raw {
                    Some(v) => Some(v@),
                    None => None,
                },
            ) == Err::<(u64, Seq<char>, Seq<char>), DecodeError>(e),
        },
{
    match raw {
        None => Ok((GetBlockFromTx::new(0, "0x".to_owned(), "0x".to_owned()), "0x".to_owned())),
        Some(bytes) => {
            match decode_raw_transaction(&bytes) {
                Ok(tx) => {
                    let hex_input = hex_encode(&tx.input);
                    let calldata = "0x".to_owned().concat(hex_input.as_str());
                    let txid = crate::tx::transaction_hash_hex(&bytes);
                    Ok((GetBlockFromTx::new(0, "0x".to_owned(), calldata), txid))
                },
                Err(e) => Err(e),
            }
        },
    }
}

/// What the archiver-block decode path yields for a prefixed hex payload:
/// the hex is decoded, decompressed, and read as the nested record; every
/// failure is surfaced.
pub open spec fn decode_archiver_spec(calldata: Seq<char>) -> Result<
    ArchiverBlockModel,
    DecodeError,
> {
    match hex_decode_spec(strip_hex_prefix_spec(calldata)) {
        None => Err(DecodeError::BadHex),
        Some(bytes) => sp_archiver(brotli_inflate_of(bytes)),
    }
}

/// Decodes a matched calldata blob as a nested archival record: strips the
/// hex prefix, hex-decodes, decompresses, and reads the record. This is the
/// strict decode path: failures propagate instead of falling back.
pub fn decode_calldata_to_wvm_archiver(calldata: &String) -> (r: Result<
    WeaveVMArchiverBlock,
    DecodeError,
>)
    ensures
        match r {
            Ok(b) => decode_archiver_spec(calldata@) == Ok::<ArchiverBlockModel, DecodeError>(b@),
            Err(e) => decode_archiver_spec(calldata@) == Err::<ArchiverBlockModel, DecodeError>(e),
        },
{
    let stripped = strip_hex_prefix(calldata.as_str());
    let bytes = match hex_decode(stripped) {
        Some(v) => v,
        None => {
            return Err(DecodeError::BadHex);
        },
    };
    let unbrotli = match EncodingUtils::brotli_decompress(bytes) {
        Ok(v) => v,
        Err(_) => Vec::new(),
    };
    EncodingUtils::wvm_archiver_borsh_deserialize(unbrotli)
}


/// A well-formed transaction identifier: an optional `0x` prefix over
/// exactly 32 bytes of hex.
pub open spec fn tx_hash_spec(s: Seq<char>) -> Option<Seq<u8>> {
    match hex_decode_spec(strip_hex_prefix_spec(s)) {
        Some(b) => if b.len() == 32 {
            Some(b)
        } else {
            None
        },
        None => None,
    }
}

/// Checks a transaction identifier before any remote call is made: accepts
/// exactly a 32-byte hex hash, with or without the `0x` prefix, and hands
/// back its bytes.
pub fn parse_tx_hash(s: &String) -> (r: Option<Vec<u8>>)
    ensures
        match r {
            Some(b) => tx_hash_spec(s@) == Some(b@),
            None => tx_hash_spec(s@) is None,
        },
{
    let stripped = strip_hex_prefix(s.as_str());
    match hex_decode(stripped) {
        Some(b) => {
            if b.len() == 32 {
                Some(b)
            } else {
                None
            }
        },
        None => None,
    }
}

} // verus!
