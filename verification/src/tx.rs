//! Transaction decoder: parses raw fee-market transaction bytes, rebuilds
//! the canonical signing payload, and recovers the sending address from the
//! signature.

use vstd::prelude::*;
use vstd::string::StringExecFns;
use crate::rlp::{sp_rlp_string, sp_rlp_list_header, rlp_enc_bytes, rlp_enc_list, p_rlp_string,
    p_rlp_list_header, rlp_append_bytes, rlp_append_list, lemma_parse_rlp_bytes_at,
    lemma_parse_rlp_list_header_at, lemma_rlp_enc_bytes_len};
use crate::schemas::{DecodeError, SignatureError};

verus! {

/// A decoded fee-market transaction. Numeric fields are held as the minimal
/// big-endian byte strings their canonical encoding carries; `v` is the
/// signature's parity byte.
#[derive(Debug, Clone, PartialEq)]
pub struct RawTransaction {
    pub chain_id: Vec<u8>,
    pub nonce: Vec<u8>,
    pub max_priority_fee_per_gas: Vec<u8>,
    pub max_fee_per_gas: Vec<u8>,
    pub gas_limit: Vec<u8>,
    pub to: Option<Vec<u8>>,
    pub value: Vec<u8>,
    pub input: Vec<u8>,
    pub v: u8,
    pub r: Vec<u8>,
    pub s: Vec<u8>,
}

/// Ghost mirror of `RawTransaction`.
#[verifier::ext_equal]
pub struct TxModel {
    pub chain_id: Seq<u8>,
    pub nonce: Seq<u8>,
    pub max_priority_fee_per_gas: Seq<u8>,
    pub max_fee_per_gas: Seq<u8>,
    pub gas_limit: Seq<u8>,
    pub to: Option<Seq<u8>>,
    pub value: Seq<u8>,
    pub input: Seq<u8>,
    pub v: u8,
    pub r: Seq<u8>,
    pub s: Seq<u8>,
}

impl View for RawTransaction {
    type V = TxModel;

    open spec fn view(&self) -> TxModel {
        TxModel {
            chain_id: self.chain_id@,
            nonce: self.nonce@,
            max_priority_fee_per_gas: self.max_priority_fee_per_gas@,
            max_fee_per_gas: self.max_fee_per_gas@,
            gas_limit: self.gas_limit@,
            to: match self.to {
                Some(ref a) => Some(a@),
                None => None,
            },
            value: self.value@,
            input: self.input@,
            v: self.v,
            r: self.r@,
            s: self.s@,
        }
    }
}

/// A canonical unsigned quantity: no leading zero byte, at most 32 bytes.
pub open spec fn is_minimal_uint(b: Seq<u8>) -> bool {
    (b.len() == 0 || b[0] != 0) && b.len() <= 32
}

impl TxModel {
    /// The shape a decoded transaction always has: canonical quantities, a
    /// twenty-byte recipient when present, and a parity byte held in one
    /// byte.
    pub open spec fn wf(self) -> bool {
        &&& is_minimal_uint(self.chain_id)
        &&& is_minimal_uint(self.nonce)
        &&& is_minimal_uint(self.max_priority_fee_per_gas)
        &&& is_minimal_uint(self.max_fee_per_gas)
        &&& is_minimal_uint(self.gas_limit)
        &&& match self.to {
            Some(a) => a.len() == 20,
            None => true,
        }
        &&& is_minimal_uint(self.value)
        &&& is_minimal_uint(self.r)
        &&& is_minimal_uint(self.s)
    }
}

/// Reads a byte-string item that must be a canonical quantity of at most
/// `max` bytes.
pub open spec fn sp_rlp_uint(s: Seq<u8>, i: int, max: int) -> Option<(Seq<u8>, int)> {
    match sp_rlp_string(s, i) {
        Some((c, j)) => if (c.len() == 0 || c[0] != 0) && c.len() <= max {
            Some((c, j))
        } else {
            None
        },
        None => None,
    }
}

/// The fee-market transaction type byte.
pub open spec fn tx_type_byte() -> u8 {
    2
}

/// What decoding raw transaction bytes yields: the type byte, then one
/// canonical list holding exactly the twelve fields of a signed fee-market
/// transaction — with an empty access list — and nothing after it.
pub open spec fn sp_decode_tx(raw: Seq<u8>) -> Result<TxModel, DecodeError> {
    if raw.len() == 0 || raw[0] != tx_type_byte() {
        Err(DecodeError::Malformed)
    } else {
        match sp_rlp_list_header(raw, 1) {
            None => Err(DecodeError::Malformed),
            Some((n, i0)) => {
                if i0 + n != raw.len() {
                    Err(DecodeError::Malformed)
                } else {
                    match sp_rlp_uint(raw, i0, 32) { Some((chain_id, i)) =>
                    match sp_rlp_uint(raw, i, 32) { Some((nonce, i)) =>
                    match sp_rlp_uint(raw, i, 32) { Some((max_priority_fee_per_gas, i)) =>
                    match sp_rlp_uint(raw, i, 32) { Some((max_fee_per_gas, i)) =>
                    match sp_rlp_uint(raw, i, 32) { Some((gas_limit, i)) =>
                    match sp_rlp_string(raw, i) { Some((to, i)) =>
                    if to.len() != 0 && to.len() != 20 {
                        Err(DecodeError::Malformed)
                    } else {
                        match sp_rlp_uint(raw, i, 32) { Some((value, i)) =>
                        match sp_rlp_string(raw, i) { Some((input, i)) =>
                        if !(i < raw.len() && raw[i] == 192) {
                            Err(DecodeError::Malformed)
                        } else {
                            match sp_rlp_uint(raw, i + 1, 1) { Some((vb, i)) =>
                            match sp_rlp_uint(raw, i, 32) { Some((r, i)) =>
                            match sp_rlp_uint(raw, i, 32) { Some((s, i)) =>
                            if i == raw.len() {
                                Ok(TxModel {
                                    chain_id,
                                    nonce,
                                    max_priority_fee_per_gas,
                                    max_fee_per_gas,
                                    gas_limit,
                                    to: if to.len() == 0 { None } else { Some(to) },
                                    value,
                                    input,
                                    v: if vb.len() == 0 { 0 } else { vb[0] },
                                    r,
                                    s,
                                })
                            } else {
                                Err(DecodeError::Malformed)
                            },
                            None => Err(DecodeError::Malformed) },
                            None => Err(DecodeError::Malformed) },
                            None => Err(DecodeError::Malformed) }
                        },
                        None => Err(DecodeError::Malformed) },
                        None => Err(DecodeError::Malformed) }
                    },
                    None => Err(DecodeError::Malformed) },
                    None => Err(DecodeError::Malformed) },
                    None => Err(DecodeError::Malformed) },
                    None => Err(DecodeError::Malformed) },
                    None => Err(DecodeError::Malformed) },
                    None => Err(DecodeError::Malformed) }
                }
            },
        }
    }
}

/// Reads a canonical quantity of at most `max` bytes.
fn p_rlp_uint(s: &Vec<u8>, i: usize, max: usize) -> (r: Option<(Vec<u8>, usize)>)
    requires
        i <= s@.len(),
    ensures
        r matches Some(p) ==> sp_rlp_uint(s@, i as int, max as int) == Some((p.0@, p.1 as int))
            && i < p.1 <= s@.len(),
        r is None ==> sp_rlp_uint(s@, i as int, max as int) is None,
{
    match p_rlp_string(s, i) {
        Some((c, j)) => {
            if (c.len() == 0 || c[0] != 0) && c.len() <= max {
                Some((c, j))
            } else {
                None
            }
        },
        None => None,
    }
}

/// Decodes raw fee-market transaction bytes. Accepts exactly the canonical
/// encoding of a signed twelve-field transaction with an empty access list;
/// anything else is rejected.
#[verifier::rlimit(100)]
#[verifier::spinoff_prover]
pub fn decode_raw_transaction(raw: &Vec<u8>) -> (res: Result<RawTransaction, DecodeError>)
    ensures
        res matches Ok(tx) ==> sp_decode_tx(raw@) == Ok::<TxModel, DecodeError>(tx@) && tx@.wf(),
        res matches Err(e) ==> sp_decode_tx(raw@) == Err::<TxModel, DecodeError>(e),
{
    if raw.len() == 0 {
        return Err(DecodeError::Malformed);
    }
    if raw[0] != 2 {
        return Err(DecodeError::Malformed);
    }
    let (n, i0) = match p_rlp_list_header(raw, 1) {
        Some(p) => p,
        None => return Err(DecodeError::Malformed),
    };
    if i0 > raw.len() - n || i0 + n != raw.len() {
        return Err(DecodeError::Malformed);
    }
    let (chain_id, i) = match p_rlp_uint(raw, i0, 32) {
        Some(p) => p,
        None => return Err(DecodeError::Malformed),
    };
    let (nonce, i) = match p_rlp_uint(raw, i, 32) {
        Some(p) => p,
        None => return Err(DecodeError::Malformed),
    };
    let (max_priority_fee_per_gas, i) = match p_rlp_uint(raw, i, 32) {
        Some(p) => p,
        None => return Err(DecodeError::Malformed),
    };
    let (max_fee_per_gas, i) = match p_rlp_uint(raw, i, 32) {
        Some(p) => p,
        None => return Err(DecodeError::Malformed),
    };
    let (gas_limit, i) = match p_rlp_uint(raw, i, 32) {
        Some(p) => p,
        None => return Err(DecodeError::Malformed),
    };
    let (to_bytes, i) = match p_rlp_string(raw, i) {
        Some(p) => p,
        None => return Err(DecodeError::Malformed),
    };
    if to_bytes.len() != 0 && to_bytes.len() != 20 {
        return Err(DecodeError::Malformed);
    }
    let (value, i) = match p_rlp_uint(raw, i, 32) {
        Some(p) => p,
        None => return Err(DecodeError::Malformed),
    };
    let (input, i) = match p_rlp_string(raw, i) {
        Some(p) => p,
        None => return Err(DecodeError::Malformed),
    };
    if !(i < raw.len() && raw[i] == 192) {
        return Err(DecodeError::Malformed);
    }
    let (vb, i) = match p_rlp_uint(raw, i + 1, 1) {
        Some(p) => p,
        None => return Err(DecodeError::Malformed),
    };
    let (r, i) = match p_rlp_uint(raw, i, 32) {
        Some(p) => p,
        None => return Err(DecodeError::Malformed),
    };
    let (s, i) = match p_rlp_uint(raw, i, 32) {
        Some(p) => p,
        None => return Err(DecodeError::Malformed),
    };
    if i != raw.len() {
        return Err(DecodeError::Malformed);
    }
    let v: u8 = if vb.len() == 0 {
        0
    } else {
        vb[0]
    };
    let to: Option<Vec<u8>> = if to_bytes.len() == 0 {
        None
    } else {
        Some(to_bytes)
    };
    let tx = RawTransaction {
        chain_id,
        nonce,
        max_priority_fee_per_gas,
        max_fee_per_gas,
        gas_limit,
        to,
        value,
        input,
        v,
        r,
        s,
    };
    proof {
        match sp_decode_tx(raw@) {
            Ok(m) => {
                assert(tx@ =~= m);
            },
            Err(_) => {
                assert(false);
            },
        }
    }
    Ok(tx)
}

/// The recipient bytes as they enter the signing payload: the address, or
/// the empty string for a creation.
pub open spec fn to_field_bytes(to: Option<Seq<u8>>) -> Seq<u8> {
    match to {
        Some(a) => a,
        None => Seq::empty(),
    }
}

/// The nine signing-payload items of a fee-market transaction, concatenated:
/// chain id, nonce, both fee caps, gas limit, recipient-or-empty, value,
/// input, and an empty access list.
pub open spec fn signing_payload_items(m: TxModel) -> Seq<u8> {
    rlp_enc_bytes(m.chain_id) + rlp_enc_bytes(m.nonce)
        + rlp_enc_bytes(m.max_priority_fee_per_gas) + rlp_enc_bytes(m.max_fee_per_gas)
        + rlp_enc_bytes(m.gas_limit) + rlp_enc_bytes(to_field_bytes(m.to))
        + rlp_enc_bytes(m.value) + rlp_enc_bytes(m.input) + seq![192u8]
}

/// The canonical signing payload: the transaction-type byte, then the
/// nine-item list.
pub open spec fn signing_payload(m: TxModel) -> Seq<u8> {
    seq![tx_type_byte()] + rlp_enc_list(signing_payload_items(m))
}

/// What the chain's standard hash function returns on given bytes.
pub uninterp spec fn keccak_of(data: Seq<u8>) -> Seq<u8>;

/// Relies on `ethers_core::utils::keccak256`: the digest depends on the
/// input bytes alone and is 32 bytes long.
#[verifier::external_body]
fn keccak256_raw(data: &Vec<u8>) -> (r: Vec<u8>)
    ensures
        r@ == keccak_of(data@),
        r@.len() == 32,
{
    ethers_core::utils::keccak256(data.as_slice()).to_vec()
}

/// What public-key recovery yields over a 32-byte digest and the signature
/// fields: the 20-byte signing address, or nothing when recovery fails.
pub uninterp spec fn ecrecover_of(h: Seq<u8>, r: Seq<u8>, s: Seq<u8>, v: u8) -> Option<Seq<u8>>;

/// Relies on `ethers_core::types::Signature::recover`: recovery over a fixed
/// digest is a function of the digest and the signature fields alone, and
/// yields a 20-byte address or an error; within the stated bounds the
/// conversions cannot panic.
#[verifier::external_body]
fn ecrecover_raw(h: &Vec<u8>, sig_r: &Vec<u8>, sig_s: &Vec<u8>, v: u8) -> (out: Option<Vec<u8>>)
    requires
        h@.len() == 32,
        sig_r@.len() <= 32,
        sig_s@.len() <= 32,
    ensures
        match out {
            Some(a) => ecrecover_of(h@, sig_r@, sig_s@, v) == Some(a@) && a@.len() == 20,
            None => ecrecover_of(h@, sig_r@, sig_s@, v) is None,
        },
{
    let signature = ethers_core::types::Signature {
        r: ethers_core::types::U256::from_big_endian(sig_r.as_slice()),
        s: ethers_core::types::U256::from_big_endian(sig_s.as_slice()),
        v: v as u64,
    };
    let hash = ethers_core::types::H256::from_slice(h.as_slice());
    match signature.recover(ethers_core::types::RecoveryMessage::Hash(hash)) {
        Ok(address) => Some(address.as_bytes().to_vec()),
        Err(_) => None,
    }
}

/// Rebuilds the canonical signing payload of the transaction — the
/// nine-field list behind the type byte — and hashes it with the chain's
/// standard hash function.
#[verifier::rlimit(100)]
#[verifier::spinoff_prover]
pub fn compute_signing_hash(tx: &RawTransaction) -> (r: Vec<u8>)
    ensures
        r@ == keccak_of(signing_payload(tx@)),
        r@.len() == 32,
{
    let mut payload: Vec<u8> = Vec::new();
    rlp_append_bytes(&mut payload, &tx.chain_id);
    rlp_append_bytes(&mut payload, &tx.nonce);
    rlp_append_bytes(&mut payload, &tx.max_priority_fee_per_gas);
    rlp_append_bytes(&mut payload, &tx.max_fee_per_gas);
    rlp_append_bytes(&mut payload, &tx.gas_limit);
    match &tx.to {
        Some(a) => {
            rlp_append_bytes(&mut payload, a);
        },
        None => {
            let empty: Vec<u8> = Vec::new();
            rlp_append_bytes(&mut payload, &empty);
        },
    }
    rlp_append_bytes(&mut payload, &tx.value);
    rlp_append_bytes(&mut payload, &tx.input);
    payload.push(192);
    proof {
        assert(payload@ =~= signing_payload_items(tx@));
    }
    let mut out: Vec<u8> = Vec::new();
    out.push(2);
    rlp_append_list(&mut out, &payload);
    proof {
        assert(out@ =~= signing_payload(tx@));
    }
    keccak256_raw(&out)
}

/// The hash under which a raw transaction is known on the chain: the
/// standard hash of its full encoded bytes, spelled as prefixed hex.
pub fn transaction_hash_hex(raw: &Vec<u8>) -> (r: String)
    ensures
        r@ == "0x"@ + crate::hex::hex_encode_spec(keccak_of(raw@)),
{
    let digest = keccak256_raw(raw);
    let hex_digest = crate::hex::hex_encode(&digest);
    "0x".to_owned().concat(hex_digest.as_str())
}

/// Recovers the sending address from the signature fields over the signing
/// hash; fails exactly when public-key recovery yields no address.
pub fn recover_sender(tx: &RawTransaction, signing_hash: &Vec<u8>) -> (res: Result<
    Vec<u8>,
    SignatureError,
>)
    requires
        signing_hash@.len() == 32,
        tx@.wf(),
    ensures
        match res {
            Ok(a) => ecrecover_of(signing_hash@, tx@.r, tx@.s, tx@.v) == Some(a@)
                && a@.len() == 20,
            Err(_) => ecrecover_of(signing_hash@, tx@.r, tx@.s, tx@.v) is None,
        },
{
    match ecrecover_raw(signing_hash, &tx.r, &tx.s, tx.v) {
        Some(address) => Ok(address),
        None => Err(SignatureError),
    }
}

/// The parity byte as a canonical quantity: empty for zero, itself
/// otherwise.
pub open spec fn parity_bytes(v: u8) -> Seq<u8> {
    if v == 0 {
        Seq::empty()
    } else {
        seq![v]
    }
}

/// The encoding of the `j`-th item of a signed transaction, in list order:
/// the nine signing fields, then the parity byte and the signature scalars.
pub open spec fn tx_item(m: TxModel, j: int) -> Seq<u8> {
    if j == 0 {
        rlp_enc_bytes(m.chain_id)
    } else if j == 1 {
        rlp_enc_bytes(m.nonce)
    } else if j == 2 {
        rlp_enc_bytes(m.max_priority_fee_per_gas)
    } else if j == 3 {
        rlp_enc_bytes(m.max_fee_per_gas)
    } else if j == 4 {
        rlp_enc_bytes(m.gas_limit)
    } else if j == 5 {
        rlp_enc_bytes(to_field_bytes(m.to))
    } else if j == 6 {
        rlp_enc_bytes(m.value)
    } else if j == 7 {
        rlp_enc_bytes(m.input)
    } else if j == 8 {
        seq![192u8]
    } else if j == 9 {
        rlp_enc_bytes(parity_bytes(m.v))
    } else if j == 10 {
        rlp_enc_bytes(m.r)
    } else {
        rlp_enc_bytes(m.s)
    }
}

/// Where the `j`-th item starts within the signed-transaction list payload.
pub open spec fn tx_off(m: TxModel, j: int) -> int
    decreases j,
{
    if j <= 0 {
        0
    } else {
        tx_off(m, j - 1) + tx_item(m, j - 1).len()
    }
}

/// The twelve signed-transaction items, concatenated.
pub open spec fn signed_tx_items(m: TxModel) -> Seq<u8> {
    rlp_enc_bytes(m.chain_id) + rlp_enc_bytes(m.nonce)
        + rlp_enc_bytes(m.max_priority_fee_per_gas) + rlp_enc_bytes(m.max_fee_per_gas)
        + rlp_enc_bytes(m.gas_limit) + rlp_enc_bytes(to_field_bytes(m.to))
        + rlp_enc_bytes(m.value) + rlp_enc_bytes(m.input) + seq![192u8]
        + rlp_enc_bytes(parity_bytes(m.v)) + rlp_enc_bytes(m.r) + rlp_enc_bytes(m.s)
}

/// The canonical raw bytes of a signed fee-market transaction: the type
/// byte, then the twelve-item list.
pub open spec fn signed_tx_bytes(m: TxModel) -> Seq<u8> {
    seq![tx_type_byte()] + rlp_enc_list(signed_tx_items(m))
}

/// Every item's encoding is short; only the input can be long, and it is
/// bounded by the machine.
proof fn lemma_signed_tx_items_len(m: TxModel)
    requires
        m.wf(),
        m.input.len() < 0x1000_0000_0000_0000,
    ensures
        signed_tx_items(m).len() < 0x1_0000_0000_0000_0000,
{
    lemma_rlp_enc_bytes_len(m.chain_id);
    lemma_rlp_enc_bytes_len(m.nonce);
    lemma_rlp_enc_bytes_len(m.max_priority_fee_per_gas);
    lemma_rlp_enc_bytes_len(m.max_fee_per_gas);
    lemma_rlp_enc_bytes_len(m.gas_limit);
    lemma_rlp_enc_bytes_len(to_field_bytes(m.to));
    lemma_rlp_enc_bytes_len(m.value);
    lemma_rlp_enc_bytes_len(m.input);
    lemma_rlp_enc_bytes_len(parity_bytes(m.v));
    lemma_rlp_enc_bytes_len(m.r);
    lemma_rlp_enc_bytes_len(m.s);
}

#[verifier::rlimit(100)]
#[verifier::spinoff_prover]
proof fn lemma_parse_tx_items_a(s: Seq<u8>, i0: int, m: TxModel)
    requires
        0 <= i0,
        m.wf(),
        m.input.len() < 0x1000_0000_0000_0000,
        i0 + signed_tx_items(m).len() <= s.len(),
        s.subrange(i0, i0 + signed_tx_items(m).len()) == signed_tx_items(m),
    ensures
        sp_rlp_uint(s, i0 + tx_off(m, 0), 32) == Some::<(Seq<u8>, int)>((m.chain_id, i0 + tx_off(m, 1))),
        sp_rlp_uint(s, i0 + tx_off(m, 1), 32) == Some::<(Seq<u8>, int)>((m.nonce, i0 + tx_off(m, 2))),
        sp_rlp_uint(s, i0 + tx_off(m, 2), 32) == Some::<(Seq<u8>, int)>((m.max_priority_fee_per_gas, i0 + tx_off(m, 3))),
        sp_rlp_uint(s, i0 + tx_off(m, 3), 32) == Some::<(Seq<u8>, int)>((m.max_fee_per_gas, i0 + tx_off(m, 4))),
{
    let items = signed_tx_items(m);
    let pl = items.len() as int;
    assert(tx_off(m, 1) == tx_off(m, 0) + tx_item(m, 0).len());
    assert(tx_off(m, 2) == tx_off(m, 1) + tx_item(m, 1).len());
    assert(tx_off(m, 3) == tx_off(m, 2) + tx_item(m, 2).len());
    assert(tx_off(m, 4) == tx_off(m, 3) + tx_item(m, 3).len());
    assert(tx_off(m, 5) == tx_off(m, 4) + tx_item(m, 4).len());
    assert(tx_off(m, 6) == tx_off(m, 5) + tx_item(m, 5).len());
    assert(tx_off(m, 7) == tx_off(m, 6) + tx_item(m, 6).len());
    assert(tx_off(m, 8) == tx_off(m, 7) + tx_item(m, 7).len());
    assert(tx_off(m, 9) == tx_off(m, 8) + tx_item(m, 8).len());
    assert(tx_off(m, 10) == tx_off(m, 9) + tx_item(m, 9).len());
    assert(tx_off(m, 11) == tx_off(m, 10) + tx_item(m, 10).len());
    assert(tx_off(m, 12) == tx_off(m, 11) + tx_item(m, 11).len());
    assert(signed_tx_items(m).len() == tx_off(m, 12));
    assert forall|k: int| 0 <= k < tx_item(m, 0).len() as int implies s.subrange(
        i0 + tx_off(m, 0),
        i0 + tx_off(m, 0) + tx_item(m, 0).len() as int,
    )[k] == tx_item(m, 0)[k] by {
        assert(s.subrange(i0, i0 + pl)[tx_off(m, 0) + k] == items[tx_off(m, 0) + k]);
    }
    assert(s.subrange(i0 + tx_off(m, 0), i0 + tx_off(m, 0) + tx_item(m, 0).len() as int)
        =~= tx_item(m, 0));
    lemma_parse_rlp_bytes_at(s, i0 + tx_off(m, 0), m.chain_id);
    assert forall|k: int| 0 <= k < tx_item(m, 1).len() as int implies s.subrange(
        i0 + tx_off(m, 1),
        i0 + tx_off(m, 1) + tx_item(m, 1).len() as int,
    )[k] == tx_item(m, 1)[k] by {
        assert(s.subrange(i0, i0 + pl)[tx_off(m, 1) + k] == items[tx_off(m, 1) + k]);
    }
    assert(s.subrange(i0 + tx_off(m, 1), i0 + tx_off(m, 1) + tx_item(m, 1).len() as int)
        =~= tx_item(m, 1));
    lemma_parse_rlp_bytes_at(s, i0 + tx_off(m, 1), m.nonce);
    assert forall|k: int| 0 <= k < tx_item(m, 2).len() as int implies s.subrange(
        i0 + tx_off(m, 2),
        i0 + tx_off(m, 2) + tx_item(m, 2).len() as int,
    )[k] == tx_item(m, 2)[k] by {
        assert(s.subrange(i0, i0 + pl)[tx_off(m, 2) + k] == items[tx_off(m, 2) + k]);
    }
    assert(s.subrange(i0 + tx_off(m, 2), i0 + tx_off(m, 2) + tx_item(m, 2).len() as int)
        =~= tx_item(m, 2));
    lemma_parse_rlp_bytes_at(s, i0 + tx_off(m, 2), m.max_priority_fee_per_gas);
    assert forall|k: int| 0 <= k < tx_item(m, 3).len() as int implies s.subrange(
        i0 + tx_off(m, 3),
        i0 + tx_off(m, 3) + tx_item(m, 3).len() as int,
    )[k] == tx_item(m, 3)[k] by {
        assert(s.subrange(i0, i0 + pl)[tx_off(m, 3) + k] == items[tx_off(m, 3) + k]);
    }
    assert(s.subrange(i0 + tx_off(m, 3), i0 + tx_off(m, 3) + tx_item(m, 3).len() as int)
        =~= tx_item(m, 3));
    lemma_parse_rlp_bytes_at(s, i0 + tx_off(m, 3), m.max_fee_per_gas);
}

#[verifier::rlimit(100)]
#[verifier::spinoff_prover]
proof fn lemma_parse_tx_items_b(s: Seq<u8>, i0: int, m: TxModel)
    requires
        0 <= i0,
        m.wf(),
        m.input.len() < 0x1000_0000_0000_0000,
        i0 + signed_tx_items(m).len() <= s.len(),
        s.subrange(i0, i0 + signed_tx_items(m).len()) == signed_tx_items(m),
    ensures
        sp_rlp_uint(s, i0 + tx_off(m, 4), 32) == Some::<(Seq<u8>, int)>((m.gas_limit, i0 + tx_off(m, 5))),
        sp_rlp_string(s, i0 + tx_off(m, 5)) == Some::<(Seq<u8>, int)>((to_field_bytes(m.to), i0 + tx_off(m, 6))),
        sp_rlp_uint(s, i0 + tx_off(m, 6), 32) == Some::<(Seq<u8>, int)>((m.value, i0 + tx_off(m, 7))),
        sp_rlp_string(s, i0 + tx_off(m, 7)) == Some::<(Seq<u8>, int)>((m.input, i0 + tx_off(m, 8))),
{
    let items = signed_tx_items(m);
    let pl = items.len() as int;
    assert(tx_off(m, 1) == tx_off(m, 0) + tx_item(m, 0).len());
    assert(tx_off(m, 2) == tx_off(m, 1) + tx_item(m, 1).len());
    assert(tx_off(m, 3) == tx_off(m, 2) + tx_item(m, 2).len());
    assert(tx_off(m, 4) == tx_off(m, 3) + tx_item(m, 3).len());
    assert(tx_off(m, 5) == tx_off(m, 4) + tx_item(m, 4).len());
    assert(tx_off(m, 6) == tx_off(m, 5) + tx_item(m, 5).len());
    assert(tx_off(m, 7) == tx_off(m, 6) + tx_item(m, 6).len());
    assert(tx_off(m, 8) == tx_off(m, 7) + tx_item(m, 7).len());
    assert(tx_off(m, 9) == tx_off(m, 8) + tx_item(m, 8).len());
    assert(tx_off(m, 10) == tx_off(m, 9) + tx_item(m, 9).len());
    assert(tx_off(m, 11) == tx_off(m, 10) + tx_item(m, 10).len());
    assert(tx_off(m, 12) == tx_off(m, 11) + tx_item(m, 11).len());
    assert(signed_tx_items(m).len() == tx_off(m, 12));
    assert forall|k: int| 0 <= k < tx_item(m, 4).len() as int implies s.subrange(
        i0 + tx_off(m, 4),
        i0 + tx_off(m, 4) + tx_item(m, 4).len() as int,
    )[k] == tx_item(m, 4)[k] by {
        assert(s.subrange(i0, i0 + pl)[tx_off(m, 4) + k] == items[tx_off(m, 4) + k]);
    }
    assert(s.subrange(i0 + tx_off(m, 4), i0 + tx_off(m, 4) + tx_item(m, 4).len() as int)
        =~= tx_item(m, 4));
    lemma_parse_rlp_bytes_at(s, i0 + tx_off(m, 4), m.gas_limit);
    assert forall|k: int| 0 <= k < tx_item(m, 5).len() as int implies s.subrange(
        i0 + tx_off(m, 5),
        i0 + tx_off(m, 5) + tx_item(m, 5).len() as int,
    )[k] == tx_item(m, 5)[k] by {
        assert(s.subrange(i0, i0 + pl)[tx_off(m, 5) + k] == items[tx_off(m, 5) + k]);
    }
    assert(s.subrange(i0 + tx_off(m, 5), i0 + tx_off(m, 5) + tx_item(m, 5).len() as int)
        =~= tx_item(m, 5));
    lemma_parse_rlp_bytes_at(s, i0 + tx_off(m, 5), to_field_bytes(m.to));
    assert forall|k: int| 0 <= k < tx_item(m, 6).len() as int implies s.subrange(
        i0 + tx_off(m, 6),
        i0 + tx_off(m, 6) + tx_item(m, 6).len() as int,
    )[k] == tx_item(m, 6)[k] by {
        assert(s.subrange(i0, i0 + pl)[tx_off(m, 6) + k] == items[tx_off(m, 6) + k]);
    }
    assert(s.subrange(i0 + tx_off(m, 6), i0 + tx_off(m, 6) + tx_item(m, 6).len() as int)
        =~= tx_item(m, 6));
    lemma_parse_rlp_bytes_at(s, i0 + tx_off(m, 6), m.value);
    assert forall|k: int| 0 <= k < tx_item(m, 7).len() as int implies s.subrange(
        i0 + tx_off(m, 7),
        i0 + tx_off(m, 7) + tx_item(m, 7).len() as int,
    )[k] == tx_item(m, 7)[k] by {
        assert(s.subrange(i0, i0 + pl)[tx_off(m, 7) + k] == items[tx_off(m, 7) + k]);
    }
    assert(s.subrange(i0 + tx_off(m, 7), i0 + tx_off(m, 7) + tx_item(m, 7).len() as int)
        =~= tx_item(m, 7));
    lemma_parse_rlp_bytes_at(s, i0 + tx_off(m, 7), m.input);
}

#[verifier::rlimit(100)]
#[verifier::spinoff_prover]
proof fn lemma_parse_tx_items_c(s: Seq<u8>, i0: int, m: TxModel)
    requires
        0 <= i0,
        m.wf(),
        m.input.len() < 0x1000_0000_0000_0000,
        i0 + signed_tx_items(m).len() <= s.len(),
        s.subrange(i0, i0 + signed_tx_items(m).len()) == signed_tx_items(m),
    ensures
        s[i0 + tx_off(m, 8)] == 192,
        i0 + tx_off(m, 8) < s.len(),
        sp_rlp_uint(s, i0 + tx_off(m, 9), 1) == Some::<(Seq<u8>, int)>((parity_bytes(m.v), i0 + tx_off(m, 10))),
        sp_rlp_uint(s, i0 + tx_off(m, 10), 32) == Some::<(Seq<u8>, int)>((m.r, i0 + tx_off(m, 11))),
        sp_rlp_uint(s, i0 + tx_off(m, 11), 32) == Some::<(Seq<u8>, int)>((m.s, i0 + tx_off(m, 12))),
{
    let items = signed_tx_items(m);
    let pl = items.len() as int;
    assert(tx_off(m, 1) == tx_off(m, 0) + tx_item(m, 0).len());
    assert(tx_off(m, 2) == tx_off(m, 1) + tx_item(m, 1).len());
    assert(tx_off(m, 3) == tx_off(m, 2) + tx_item(m, 2).len());
    assert(tx_off(m, 4) == tx_off(m, 3) + tx_item(m, 3).len());
    assert(tx_off(m, 5) == tx_off(m, 4) + tx_item(m, 4).len());
    assert(tx_off(m, 6) == tx_off(m, 5) + tx_item(m, 5).len());
    assert(tx_off(m, 7) == tx_off(m, 6) + tx_item(m, 6).len());
    assert(tx_off(m, 8) == tx_off(m, 7) + tx_item(m, 7).len());
    assert(tx_off(m, 9) == tx_off(m, 8) + tx_item(m, 8).len());
    assert(tx_off(m, 10) == tx_off(m, 9) + tx_item(m, 9).len());
    assert(tx_off(m, 11) == tx_off(m, 10) + tx_item(m, 10).len());
    assert(tx_off(m, 12) == tx_off(m, 11) + tx_item(m, 11).len());
    assert(signed_tx_items(m).len() == tx_off(m, 12));
    assert forall|k: int| 0 <= k < tx_item(m, 8).len() as int implies s.subrange(
        i0 + tx_off(m, 8),
        i0 + tx_off(m, 8) + tx_item(m, 8).len() as int,
    )[k] == tx_item(m, 8)[k] by {
        assert(s.subrange(i0, i0 + pl)[tx_off(m, 8) + k] == items[tx_off(m, 8) + k]);
    }
    assert(s.subrange(i0 + tx_off(m, 8), i0 + tx_off(m, 8) + tx_item(m, 8).len() as int)
        =~= tx_item(m, 8));
    assert(s.subrange(i0 + tx_off(m, 8), i0 + tx_off(m, 8) + 1)[0] == (seq![192u8])[0]);
    assert(s[i0 + tx_off(m, 8)] == 192);
    assert forall|k: int| 0 <= k < tx_item(m, 9).len() as int implies s.subrange(
        i0 + tx_off(m, 9),
        i0 + tx_off(m, 9) + tx_item(m, 9).len() as int,
    )[k] == tx_item(m, 9)[k] by {
        assert(s.subrange(i0, i0 + pl)[tx_off(m, 9) + k] == items[tx_off(m, 9) + k]);
    }
    assert(s.subrange(i0 + tx_off(m, 9), i0 + tx_off(m, 9) + tx_item(m, 9).len() as int)
        =~= tx_item(m, 9));
    lemma_parse_rlp_bytes_at(s, i0 + tx_off(m, 9), parity_bytes(m.v));
    assert forall|k: int| 0 <= k < tx_item(m, 10).len() as int implies s.subrange(
        i0 + tx_off(m, 10),
        i0 + tx_off(m, 10) + tx_item(m, 10).len() as int,
    )[k] == tx_item(m, 10)[k] by {
        assert(s.subrange(i0, i0 + pl)[tx_off(m, 10) + k] == items[tx_off(m, 10) + k]);
    }
    assert(s.subrange(i0 + tx_off(m, 10), i0 + tx_off(m, 10) + tx_item(m, 10).len() as int)
        =~= tx_item(m, 10));
    lemma_parse_rlp_bytes_at(s, i0 + tx_off(m, 10), m.r);
    assert forall|k: int| 0 <= k < tx_item(m, 11).len() as int implies s.subrange(
        i0 + tx_off(m, 11),
        i0 + tx_off(m, 11) + tx_item(m, 11).len() as int,
    )[k] == tx_item(m, 11)[k] by {
        assert(s.subrange(i0, i0 + pl)[tx_off(m, 11) + k] == items[tx_off(m, 11) + k]);
    }
    assert(s.subrange(i0 + tx_off(m, 11), i0 + tx_off(m, 11) + tx_item(m, 11).len() as int)
        =~= tx_item(m, 11));
    lemma_parse_rlp_bytes_at(s, i0 + tx_off(m, 11), m.s);
}

/// With every item in place, the decoder's case analysis lands on the
/// transaction itself.
#[verifier::rlimit(100)]
#[verifier::spinoff_prover]
proof fn lemma_decode_tx_assemble(s: Seq<u8>, i0: int, m: TxModel)
    requires
        m.wf(),
        s.len() > 0,
        s[0] == tx_type_byte(),
        sp_rlp_list_header(s, 1) == Some::<(int, int)>((signed_tx_items(m).len() as int, i0)),
        i0 + signed_tx_items(m).len() == s.len(),
        sp_rlp_uint(s, i0 + tx_off(m, 0), 32) == Some::<(Seq<u8>, int)>((m.chain_id, i0 + tx_off(m, 1))),
        sp_rlp_uint(s, i0 + tx_off(m, 1), 32) == Some::<(Seq<u8>, int)>((m.nonce, i0 + tx_off(m, 2))),
        sp_rlp_uint(s, i0 + tx_off(m, 2), 32) == Some::<(Seq<u8>, int)>((m.max_priority_fee_per_gas, i0 + tx_off(m, 3))),
        sp_rlp_uint(s, i0 + tx_off(m, 3), 32) == Some::<(Seq<u8>, int)>((m.max_fee_per_gas, i0 + tx_off(m, 4))),
        sp_rlp_uint(s, i0 + tx_off(m, 4), 32) == Some::<(Seq<u8>, int)>((m.gas_limit, i0 + tx_off(m, 5))),
        sp_rlp_string(s, i0 + tx_off(m, 5)) == Some::<(Seq<u8>, int)>((to_field_bytes(m.to), i0 + tx_off(m, 6))),
        sp_rlp_uint(s, i0 + tx_off(m, 6), 32) == Some::<(Seq<u8>, int)>((m.value, i0 + tx_off(m, 7))),
        sp_rlp_string(s, i0 + tx_off(m, 7)) == Some::<(Seq<u8>, int)>((m.input, i0 + tx_off(m, 8))),
        s[i0 + tx_off(m, 8)] == 192,
        i0 + tx_off(m, 8) < s.len(),
        sp_rlp_uint(s, i0 + tx_off(m, 9), 1) == Some::<(Seq<u8>, int)>((parity_bytes(m.v), i0 + tx_off(m, 10))),
        sp_rlp_uint(s, i0 + tx_off(m, 10), 32) == Some::<(Seq<u8>, int)>((m.r, i0 + tx_off(m, 11))),
        sp_rlp_uint(s, i0 + tx_off(m, 11), 32) == Some::<(Seq<u8>, int)>((m.s, i0 + tx_off(m, 12))),
    ensures
        sp_decode_tx(s) == Ok::<TxModel, DecodeError>(m),
{
    assert(tx_off(m, 1) == tx_off(m, 0) + tx_item(m, 0).len());
    assert(tx_off(m, 2) == tx_off(m, 1) + tx_item(m, 1).len());
    assert(tx_off(m, 3) == tx_off(m, 2) + tx_item(m, 2).len());
    assert(tx_off(m, 4) == tx_off(m, 3) + tx_item(m, 3).len());
    assert(tx_off(m, 5) == tx_off(m, 4) + tx_item(m, 4).len());
    assert(tx_off(m, 6) == tx_off(m, 5) + tx_item(m, 5).len());
    assert(tx_off(m, 7) == tx_off(m, 6) + tx_item(m, 6).len());
    assert(tx_off(m, 8) == tx_off(m, 7) + tx_item(m, 7).len());
    assert(tx_off(m, 9) == tx_off(m, 8) + tx_item(m, 8).len());
    assert(tx_off(m, 10) == tx_off(m, 9) + tx_item(m, 9).len());
    assert(tx_off(m, 11) == tx_off(m, 10) + tx_item(m, 10).len());
    assert(tx_off(m, 12) == tx_off(m, 11) + tx_item(m, 11).len());
    assert(signed_tx_items(m).len() == tx_off(m, 12));
    match sp_decode_tx(s) {
        Ok(got) => {
            assert(got =~= m);
        },
        Err(_) => {
            assert(false);
        },
    }
}

/// Law: the decoder accepts every canonically encoded signed transaction —
/// the input bounded by the machine's address space — and yields its fields
/// back.
#[verifier::rlimit(100)]
#[verifier::spinoff_prover]
pub proof fn lemma_decode_of_encode(m: TxModel)
    requires
        m.wf(),
        m.input.len() < 0x1000_0000_0000_0000,
    ensures
        sp_decode_tx(signed_tx_bytes(m)) == Ok::<TxModel, DecodeError>(m),
{
    let s = signed_tx_bytes(m);
    let items = signed_tx_items(m);
    let e = rlp_enc_list(items);
    let el = e.len() as int;
    let pl = items.len() as int;
    lemma_signed_tx_items_len(m);
    assert(s[0] == tx_type_byte());
    assert forall|k: int| 0 <= k < el implies s.subrange(1, 1 + el)[k] == e[k] by {
        assert(s[1 + k] == (seq![tx_type_byte()] + e)[1 + k]);
    }
    assert(s.subrange(1, 1 + el) =~= e);
    lemma_parse_rlp_list_header_at(s, 1, items);
    let i0 = 1 + el - pl;
    assert forall|k: int| 0 <= k < pl implies s.subrange(i0, i0 + pl)[k] == items[k] by {
        assert(s.subrange(1, 1 + el)[(el - pl) + k] == e[(el - pl) + k]);
    }
    assert(s.subrange(i0, i0 + pl) =~= items);
    lemma_parse_tx_items_a(s, i0, m);
    lemma_parse_tx_items_b(s, i0, m);
    lemma_parse_tx_items_c(s, i0, m);
    lemma_decode_tx_assemble(s, i0, m);
}
} // verus!
