//! Archive codec: compression-codec decompression behind a trusted wrapper,
//! and the versioned block schema, (de)serialized by verified code.
//!
//! The wire format is length-prefixed and little-endian: a `u32` length
//! followed by UTF-8 bytes for a string, a presence byte (`0` or `1`) before
//! an optional field, a `u32` count before the elements of a list, and — for
//! the archived block only — a leading schema-version tag byte.

use vstd::prelude::*;
use vstd::utf8::{valid_utf8, decode_utf8, encode_utf8};
use vstd::slice::slice_to_vec;
use vstd::seq_lib::lemma_concat_associative;
use crate::schemas::{Block, BlockModel, WeaveVMArchiverBlock, ArchiverBlockModel, DecodeError,
    EncodingUtils, opt_view, strings_view, pairs_view, wf_field, wf_opt_field, wf_fields,
    wf_pairs};

verus! {

/// The schema-version tag under which the archived block is stored.
pub open spec fn version_tag_v1() -> u8 {
    0
}

// ---------------------------------------------------------------------------
// Spec-level parsing
// ---------------------------------------------------------------------------

/// The value of four little-endian bytes.
pub open spec fn le32_val(s: Seq<u8>) -> int
    recommends
        s.len() == 4,
{
    s[0] + 256 * (s[1] + 256 * (s[2] + 256 * s[3]))
}

/// Reads a `u32` length at position `i`.
pub open spec fn sp_u32(s: Seq<u8>, i: int) -> Option<(u32, int)> {
    if 0 <= i && i + 4 <= s.len() {
        Some((le32_val(s.subrange(i, i + 4)) as u32, i + 4))
    } else {
        None
    }
}

/// Reads a length-prefixed byte string at position `i`.
pub open spec fn sp_bytes(s: Seq<u8>, i: int) -> Option<(Seq<u8>, int)> {
    match sp_u32(s, i) {
        Some((n, j)) => if j + n <= s.len() {
            Some((s.subrange(j, j + n), j + n))
        } else {
            None
        },
        None => None,
    }
}

/// Reads a length-prefixed UTF-8 string at position `i`.
pub open spec fn sp_string(s: Seq<u8>, i: int) -> Option<(Seq<char>, int)> {
    match sp_bytes(s, i) {
        Some((b, j)) => if valid_utf8(b) {
            Some((decode_utf8(b), j))
        } else {
            None
        },
        None => None,
    }
}

/// Reads an optional string: a presence byte, then the string when present.
pub open spec fn sp_opt_string(s: Seq<u8>, i: int) -> Option<(Option<Seq<char>>, int)> {
    if 0 <= i < s.len() {
        if s[i] == 0 {
            Some((None, i + 1))
        } else if s[i] == 1 {
            match sp_string(s, i + 1) {
                Some((v, j)) => Some((Some(v), j)),
                None => None,
            }
        } else {
            None
        }
    } else {
        None
    }
}

/// Reads `n` consecutive strings starting at position `i`.
pub open spec fn sp_strings(s: Seq<u8>, i: int, n: nat) -> Option<(Seq<Seq<char>>, int)>
    decreases n,
{
    if n == 0 {
        Some((Seq::empty(), i))
    } else {
        match sp_string(s, i) {
            Some((v, j)) => match sp_strings(s, j, (n - 1) as nat) {
                Some((vs, k)) => Some((seq![v] + vs, k)),
                None => None,
            },
            None => None,
        }
    }
}

/// Reads a counted list of strings at position `i`.
pub open spec fn sp_string_vec(s: Seq<u8>, i: int) -> Option<(Seq<Seq<char>>, int)> {
    match sp_u32(s, i) {
        Some((n, j)) => sp_strings(s, j, n as nat),
        None => None,
    }
}

/// Reads `n` consecutive string pairs starting at position `i`.
pub open spec fn sp_pairs(s: Seq<u8>, i: int, n: nat) -> Option<(Seq<(Seq<char>, Seq<char>)>, int)>
    decreases n,
{
    if n == 0 {
        Some((Seq::empty(), i))
    } else {
        match sp_string(s, i) {
            Some((a, j)) => match sp_string(s, j) {
                Some((b, k)) => match sp_pairs(s, k, (n - 1) as nat) {
                    Some((vs, m)) => Some((seq![(a, b)] + vs, m)),
                    None => None,
                },
                None => None,
            },
            None => None,
        }
    }
}

/// Reads a counted list of string pairs at position `i`.
pub open spec fn sp_pair_vec(s: Seq<u8>, i: int) -> Option<(Seq<(Seq<char>, Seq<char>)>, int)> {
    match sp_u32(s, i) {
        Some((n, j)) => sp_pairs(s, j, n as nat),
        None => None,
    }
}

/// Reads `n` consecutive optional strings starting at position `i`.
pub open spec fn sp_opt_strings(s: Seq<u8>, i: int, n: nat) -> Option<(Seq<Option<Seq<char>>>, int)>
    decreases n,
{
    if n == 0 {
        Some((Seq::empty(), i))
    } else {
        match sp_opt_string(s, i) {
            Some((v, j)) => match sp_opt_strings(s, j, (n - 1) as nat) {
                Some((vs, k)) => Some((seq![v] + vs, k)),
                None => None,
            },
            None => None,
        }
    }
}

/// A run of `sp_opt_strings` yields exactly as many fields as asked for.
proof fn lemma_sp_opt_strings_len(s: Seq<u8>, i: int, n: nat)
    ensures
        sp_opt_strings(s, i, n) matches Some(p) ==> p.0.len() == n,
    decreases n,
{
    if n > 0 {
        match sp_opt_string(s, i) {
            Some((v, j)) => {
                lemma_sp_opt_strings_len(s, j, (n - 1) as nat);
            },
            None => {},
        }
    }
}

/// Parses the field list of an archived block, in declaration order: sixteen
/// optional header fields, the seal fields, five more optional header
/// fields, then the transaction/calldata pairs.
pub open spec fn sp_block_fields(s: Seq<u8>, i: int) -> Option<(BlockModel, int)> {
    match sp_opt_strings(s, i, 16) { Some((h, i)) =>
    match sp_string_vec(s, i) { Some((seal_fields, i)) =>
    match sp_opt_strings(s, i, 5) { Some((u, i)) =>
    match sp_pair_vec(s, i) { Some((transactions_and_calldata, i)) =>
        Some((BlockModel {
            base_fee_per_gas: h[0],
            blob_gas_used: h[1],
            difficulty: h[2],
            excess_blob_gas: h[3],
            extra_data: h[4],
            gas_limit: h[5],
            gas_used: h[6],
            hash: h[7],
            logs_bloom: h[8],
            miner: h[9],
            mix_hash: h[10],
            nonce: h[11],
            number: h[12],
            parent_beacon_block_root: h[13],
            parent_hash: h[14],
            receipts_root: h[15],
            seal_fields,
            sha3_uncles: u[0],
            size: u[1],
            state_root: u[2],
            timestamp: u[3],
            total_difficulty: u[4],
            transactions_and_calldata,
        }, i)),
    None => None }, None => None }, None => None }, None => None }
}

/// Parses the field list of the nested archiver record: the same header
/// fields, with a flat transaction list in place of the pairs.
pub open spec fn sp_archiver_fields(s: Seq<u8>, i: int) -> Option<(ArchiverBlockModel, int)> {
    match sp_opt_strings(s, i, 16) { Some((h, i)) =>
    match sp_string_vec(s, i) { Some((seal_fields, i)) =>
    match sp_opt_strings(s, i, 5) { Some((u, i)) =>
    match sp_string_vec(s, i) { Some((transactions, i)) =>
        Some((ArchiverBlockModel {
            base_fee_per_gas: h[0],
            blob_gas_used: h[1],
            difficulty: h[2],
            excess_blob_gas: h[3],
            extra_data: h[4],
            gas_limit: h[5],
            gas_used: h[6],
            hash: h[7],
            logs_bloom: h[8],
            miner: h[9],
            mix_hash: h[10],
            nonce: h[11],
            number: h[12],
            parent_beacon_block_root: h[13],
            parent_hash: h[14],
            receipts_root: h[15],
            seal_fields,
            sha3_uncles: u[0],
            size: u[1],
            state_root: u[2],
            timestamp: u[3],
            total_difficulty: u[4],
            transactions,
        }, i)),
    None => None }, None => None }, None => None }, None => None }
}

/// What deserializing an archived block yields: the sole supported version
/// tag, the field list, and no trailing bytes.
pub open spec fn sp_block(s: Seq<u8>) -> Result<BlockModel, DecodeError> {
    if s.len() == 0 {
        Err(DecodeError::EmptyInput)
    } else if s[0] != version_tag_v1() {
        Err(DecodeError::UnsupportedVersion)
    } else {
        match sp_block_fields(s, 1) {
            Some((m, j)) => if j == s.len() {
                Ok(m)
            } else {
                Err(DecodeError::Malformed)
            },
            None => Err(DecodeError::Malformed),
        }
    }
}

/// What deserializing the nested archiver record yields: the field list with
/// no version tag and no trailing bytes.
pub open spec fn sp_archiver(s: Seq<u8>) -> Result<ArchiverBlockModel, DecodeError> {
    if s.len() == 0 {
        Err(DecodeError::EmptyInput)
    } else {
        match sp_archiver_fields(s, 0) {
            Some((m, j)) => if j == s.len() {
                Ok(m)
            } else {
                Err(DecodeError::Malformed)
            },
            None => Err(DecodeError::Malformed),
        }
    }
}

// ---------------------------------------------------------------------------
// Spec-level serialization
// ---------------------------------------------------------------------------

/// Four little-endian bytes of a length.
pub open spec fn ser_u32(n: int) -> Seq<u8>
    recommends
        0 <= n < 0x1_0000_0000,
{
    seq![
        (n % 256) as u8,
        ((n / 256) % 256) as u8,
        ((n / 65536) % 256) as u8,
        ((n / 16777216) % 256) as u8,
    ]
}

/// A length-prefixed byte string.
pub open spec fn ser_bytes(b: Seq<u8>) -> Seq<u8> {
    ser_u32(b.len() as int) + b
}

/// A length-prefixed UTF-8 string.
pub open spec fn ser_string(v: Seq<char>) -> Seq<u8> {
    ser_bytes(encode_utf8(v))
}

/// A presence byte, then the string when present.
pub open spec fn ser_opt_string(v: Option<Seq<char>>) -> Seq<u8> {
    match v {
        None => seq![0u8],
        Some(x) => seq![1u8] + ser_string(x),
    }
}

/// The concatenated encodings of a run of optional strings.
pub open spec fn ser_opt_strings(v: Seq<Option<Seq<char>>>) -> Seq<u8>
    decreases v.len(),
{
    if v.len() == 0 {
        Seq::empty()
    } else {
        ser_opt_string(v[0]) + ser_opt_strings(v.drop_first())
    }
}

/// The concatenated encodings of a run of strings.
pub open spec fn ser_strings(v: Seq<Seq<char>>) -> Seq<u8>
    decreases v.len(),
{
    if v.len() == 0 {
        Seq::empty()
    } else {
        ser_string(v[0]) + ser_strings(v.drop_first())
    }
}

/// A counted list of strings.
pub open spec fn ser_string_vec(v: Seq<Seq<char>>) -> Seq<u8> {
    ser_u32(v.len() as int) + ser_strings(v)
}

/// The concatenated encodings of a run of string pairs.
pub open spec fn ser_pairs(v: Seq<(Seq<char>, Seq<char>)>) -> Seq<u8>
    decreases v.len(),
{
    if v.len() == 0 {
        Seq::empty()
    } else {
        ser_string(v[0].0) + ser_string(v[0].1) + ser_pairs(v.drop_first())
    }
}

/// A counted list of string pairs.
pub open spec fn ser_pair_vec(v: Seq<(Seq<char>, Seq<char>)>) -> Seq<u8> {
    ser_u32(v.len() as int) + ser_pairs(v)
}

/// The sixteen leading optional header fields, in declaration order.
pub open spec fn block_header_fields(m: BlockModel) -> Seq<Option<Seq<char>>> {
    seq![
        m.base_fee_per_gas, m.blob_gas_used, m.difficulty, m.excess_blob_gas, m.extra_data,
        m.gas_limit, m.gas_used, m.hash, m.logs_bloom, m.miner, m.mix_hash, m.nonce, m.number,
        m.parent_beacon_block_root, m.parent_hash, m.receipts_root,
    ]
}

/// The five optional header fields between the seal fields and the
/// transaction list, in declaration order.
pub open spec fn block_trailer_fields(m: BlockModel) -> Seq<Option<Seq<char>>> {
    seq![m.sha3_uncles, m.size, m.state_root, m.timestamp, m.total_difficulty]
}

/// The serialized field list of an archived block.
pub open spec fn ser_block_fields(m: BlockModel) -> Seq<u8> {
    ser_opt_strings(block_header_fields(m)) + ser_string_vec(m.seal_fields)
        + ser_opt_strings(block_trailer_fields(m)) + ser_pair_vec(m.transactions_and_calldata)
}

/// The serialized archived block: version tag, then the field list.
pub open spec fn ser_block(m: BlockModel) -> Seq<u8> {
    seq![version_tag_v1()] + ser_block_fields(m)
}

/// The sixteen leading optional header fields of the archiver record.
pub open spec fn archiver_header_fields(m: ArchiverBlockModel) -> Seq<Option<Seq<char>>> {
    seq![
        m.base_fee_per_gas, m.blob_gas_used, m.difficulty, m.excess_blob_gas, m.extra_data,
        m.gas_limit, m.gas_used, m.hash, m.logs_bloom, m.miner, m.mix_hash, m.nonce, m.number,
        m.parent_beacon_block_root, m.parent_hash, m.receipts_root,
    ]
}

/// The five optional header fields of the archiver record between the seal
/// fields and the transaction list.
pub open spec fn archiver_trailer_fields(m: ArchiverBlockModel) -> Seq<Option<Seq<char>>> {
    seq![m.sha3_uncles, m.size, m.state_root, m.timestamp, m.total_difficulty]
}

/// The serialized field list of the nested archiver record.
pub open spec fn ser_archiver_fields(m: ArchiverBlockModel) -> Seq<u8> {
    ser_opt_strings(archiver_header_fields(m)) + ser_string_vec(m.seal_fields)
        + ser_opt_strings(archiver_trailer_fields(m)) + ser_string_vec(m.transactions)
}

/// The serialized archiver record (no version tag).
pub open spec fn ser_archiver(m: ArchiverBlockModel) -> Seq<u8> {
    ser_archiver_fields(m)
}

// ---------------------------------------------------------------------------
// Executable parsing
// ---------------------------------------------------------------------------

fn p_u32(s: &Vec<u8>, i: usize) -> (r: Option<(u32, usize)>)
    requires
        i <= s@.len(),
    ensures
        r matches Some(p) ==> sp_u32(s@, i as int) == Some((p.0, p.1 as int))
            && i <= p.1 <= s@.len(),
        r is None ==> sp_u32(s@, i as int) is None,
{
    if s.len() - i >= 4 {
        let b0 = s[i];
        let b1 = s[i + 1];
        let b2 = s[i + 2];
        let b3 = s[i + 3];
        let v: u32 = b0 as u32 + 256 * (b1 as u32 + 256 * (b2 as u32 + 256 * (b3 as u32)));
        proof {
            let sub = s@.subrange(i as int, i as int + 4);
            assert(sub[0] == b0 && sub[1] == b1 && sub[2] == b2 && sub[3] == b3);
            assert(le32_val(sub) == v);
        }
        Some((v, i + 4))
    } else {
        None
    }
}

fn p_bytes(s: &Vec<u8>, i: usize) -> (r: Option<(Vec<u8>, usize)>)
    requires
        i <= s@.len(),
    ensures
        r matches Some(p) ==> sp_bytes(s@, i as int) == Some((p.0@, p.1 as int))
            && i <= p.1 <= s@.len(),
        r is None ==> sp_bytes(s@, i as int) is None,
{
    match p_u32(s, i) {
        Some((n, j)) => {
            if s.len() - j >= n as usize {
                let seg = slice_to_vec(&s.as_slice()[j..j + n as usize]);
                Some((seg, j + n as usize))
            } else {
                None
            }
        },
        None => None,
    }
}

fn p_string(s: &Vec<u8>, i: usize) -> (r: Option<(String, usize)>)
    requires
        i <= s@.len(),
    ensures
        r matches Some(p) ==> sp_string(s@, i as int) == Some((p.0@, p.1 as int))
            && i <= p.1 <= s@.len(),
        r is None ==> sp_string(s@, i as int) is None,
{
    match p_bytes(s, i) {
        Some((b, j)) => {
            match crate::hex::bytes_to_string(b) {
                Some(st) => Some((st, j)),
                None => None,
            }
        },
        None => None,
    }
}

fn p_opt_string(s: &Vec<u8>, i: usize) -> (r: Option<(Option<String>, usize)>)
    requires
        i <= s@.len(),
    ensures
        r matches Some(p) ==> sp_opt_string(s@, i as int) == Some((opt_view(p.0), p.1 as int))
            && i <= p.1 <= s@.len(),
        r is None ==> sp_opt_string(s@, i as int) is None,
{
    if i < s.len() {
        let tag = s[i];
        if tag == 0 {
            Some((None, i + 1))
        } else if tag == 1 {
            match p_string(s, i + 1) {
                Some((v, j)) => Some((Some(v), j)),
                None => None,
            }
        } else {
            None
        }
    } else {
        None
    }
}

#[verifier::loop_isolation(false)]
fn p_string_vec(s: &Vec<u8>, i: usize) -> (r: Option<(Vec<String>, usize)>)
    requires
        i <= s@.len(),
    ensures
        r matches Some(p) ==> sp_string_vec(s@, i as int)
            == Some((strings_view(p.0@), p.1 as int)) && i <= p.1 <= s@.len(),
        r is None ==> sp_string_vec(s@, i as int) is None,
{
    match p_u32(s, i) {
        Some((n, start)) => {
            let mut acc: Vec<String> = Vec::new();
            let mut j: usize = start;
            let mut k: u32 = 0;
            proof {
                match sp_strings(s@, start as int, n as nat) {
                    Some(p) => {
                        assert(strings_view(acc@) + p.0 =~= p.0);
                    },
                    None => {},
                }
            }
            while k < n
                invariant
                    k <= n,
                    start <= j <= s@.len(),
                    sp_strings(s@, j as int, (n - k) as nat) matches Some(p)
                        ==> sp_strings(s@, start as int, n as nat)
                            == Some((strings_view(acc@) + p.0, p.1)),
                    sp_strings(s@, j as int, (n - k) as nat) is None
                        ==> sp_strings(s@, start as int, n as nat) is None,
                decreases n - k,
            {
                match p_string(s, j) {
                    Some((v, j2)) => {
                        proof {
                            let m = (n - k) as nat;
                            let tail = sp_strings(s@, j2 as int, (m - 1) as nat);
                            match tail {
                                Some((vs3, end)) => {
                                    assert(sp_strings(s@, j as int, m)
                                        == Some((seq![v@] + vs3, end)));
                                    assert(strings_view(acc@.push(v)) + vs3
                                        =~= strings_view(acc@) + (seq![v@] + vs3));
                                },
                                None => {
                                    assert(sp_strings(s@, j as int, m) is None);
                                },
                            }
                        }
                        acc.push(v);
                        j = j2;
                        k = k + 1;
                    },
                    None => {
                        proof {
                            assert(sp_strings(s@, j as int, (n - k) as nat) is None);
                        }
                        return None;
                    },
                }
            }
            proof {
                assert(sp_strings(s@, j as int, 0) == Some((Seq::<Seq<char>>::empty(), j as int)));
                assert(strings_view(acc@) + Seq::<Seq<char>>::empty() =~= strings_view(acc@));
            }
            Some((acc, j))
        },
        None => None,
    }
}

#[verifier::loop_isolation(false)]
fn p_pair_vec(s: &Vec<u8>, i: usize) -> (r: Option<(Vec<(String, String)>, usize)>)
    requires
        i <= s@.len(),
    ensures
        r matches Some(p) ==> sp_pair_vec(s@, i as int)
            == Some((pairs_view(p.0@), p.1 as int)) && i <= p.1 <= s@.len(),
        r is None ==> sp_pair_vec(s@, i as int) is None,
{
    match p_u32(s, i) {
        Some((n, start)) => {
            let mut acc: Vec<(String, String)> = Vec::new();
            let mut j: usize = start;
            let mut k: u32 = 0;
            proof {
                match sp_pairs(s@, start as int, n as nat) {
                    Some(p) => {
                        assert(pairs_view(acc@) + p.0 =~= p.0);
                    },
                    None => {},
                }
            }
            while k < n
                invariant
                    k <= n,
                    start <= j <= s@.len(),
                    sp_pairs(s@, j as int, (n - k) as nat) matches Some(p)
                        ==> sp_pairs(s@, start as int, n as nat)
                            == Some((pairs_view(acc@) + p.0, p.1)),
                    sp_pairs(s@, j as int, (n - k) as nat) is None
                        ==> sp_pairs(s@, start as int, n as nat) is None,
                decreases n - k,
            {
                match p_string(s, j) {
                    Some((a, ja)) => {
                        match p_string(s, ja) {
                            Some((b, jb)) => {
                                proof {
                                    let m = (n - k) as nat;
                                    let tail = sp_pairs(s@, jb as int, (m - 1) as nat);
                                    match tail {
                                        Some((vs3, end)) => {
                                            assert(sp_pairs(s@, j as int, m)
                                                == Some((seq![(a@, b@)] + vs3, end)));
                                            assert(pairs_view(acc@.push((a, b))) + vs3
                                                =~= pairs_view(acc@) + (seq![(a@, b@)] + vs3));
                                        },
                                        None => {
                                            assert(sp_pairs(s@, j as int, m) is None);
                                        },
                                    }
                                }
                                acc.push((a, b));
                                j = jb;
                                k = k + 1;
                            },
                            None => {
                                proof {
                                    assert(sp_pairs(s@, j as int, (n - k) as nat) is None);
                                }
                                return None;
                            },
                        }
                    },
                    None => {
                        proof {
                            assert(sp_pairs(s@, j as int, (n - k) as nat) is None);
                        }
                        return None;
                    },
                }
            }
            proof {
                assert(sp_pairs(s@, j as int, 0)
                    == Some((Seq::<(Seq<char>, Seq<char>)>::empty(), j as int)));
                assert(pairs_view(acc@) + Seq::<(Seq<char>, Seq<char>)>::empty()
                    =~= pairs_view(acc@));
            }
            Some((acc, j))
        },
        None => None,
    }
}

// ---------------------------------------------------------------------------
// Executable serialization
// ---------------------------------------------------------------------------

fn w_u32(out: &mut Vec<u8>, n: u32)
    ensures
        final(out)@ == old(out)@ + ser_u32(n as int),
{
    out.push((n % 256) as u8);
    out.push(((n / 256) % 256) as u8);
    out.push(((n / 65536) % 256) as u8);
    out.push(((n / 16777216) % 256) as u8);
    proof {
        assert(final(out)@ =~= old(out)@ + ser_u32(n as int));
    }
}

fn w_string(out: &mut Vec<u8>, v: &String)
    requires
        wf_field(v@),
    ensures
        final(out)@ == old(out)@ + ser_string(v@),
{
    let bs = v.as_str().as_bytes();
    w_u32(out, bs.len() as u32);
    out.extend_from_slice(bs);
    proof {
        assert(final(out)@ =~= old(out)@ + ser_string(v@));
    }
}

fn w_opt_string(out: &mut Vec<u8>, v: &Option<String>)
    requires
        wf_opt_field(opt_view(*v)),
    ensures
        final(out)@ == old(out)@ + ser_opt_string(opt_view(*v)),
{
    match v {
        None => {
            out.push(0);
            proof {
                assert(final(out)@ =~= old(out)@ + ser_opt_string(opt_view(*v)));
            }
        },
        Some(x) => {
            out.push(1);
            w_string(out, x);
            proof {
                assert(final(out)@ =~= old(out)@ + ser_opt_string(opt_view(*v)));
            }
        },
    }
}

/// Appending one optional string extends the run encoding by its encoding.
proof fn lemma_ser_opt_strings_push(v: Seq<Option<Seq<char>>>, x: Option<Seq<char>>)
    ensures
        ser_opt_strings(v.push(x)) == ser_opt_strings(v) + ser_opt_string(x),
    decreases v.len(),
{
    let d = v.push(x).drop_first();
    if v.len() == 0 {
        assert(v.push(x)[0] == x);
        assert(d =~= Seq::<Option<Seq<char>>>::empty());
        assert(ser_opt_strings(d) =~= Seq::<u8>::empty());
        assert(ser_opt_strings(v) =~= Seq::<u8>::empty());
        assert(ser_opt_strings(v.push(x)) =~= ser_opt_strings(v) + ser_opt_string(x));
    } else {
        assert(v.push(x)[0] == v[0]);
        assert(d =~= v.drop_first().push(x));
        lemma_ser_opt_strings_push(v.drop_first(), x);
        assert(ser_opt_strings(d) == ser_opt_strings(v.drop_first()) + ser_opt_string(x));
        assert(ser_opt_strings(v.push(x)) =~= ser_opt_strings(v) + ser_opt_string(x));
    }
}

/// Appending one string extends the run encoding by that string's encoding.
proof fn lemma_ser_strings_push(v: Seq<Seq<char>>, x: Seq<char>)
    ensures
        ser_strings(v.push(x)) == ser_strings(v) + ser_string(x),
    decreases v.len(),
{
    let d = v.push(x).drop_first();
    if v.len() == 0 {
        assert(v.push(x)[0] == x);
        assert(d =~= Seq::<Seq<char>>::empty());
        assert(ser_strings(d) =~= Seq::<u8>::empty());
        assert(ser_strings(v) =~= Seq::<u8>::empty());
        assert(ser_strings(v.push(x)) =~= ser_strings(v) + ser_string(x));
    } else {
        assert(v.push(x)[0] == v[0]);
        assert(d =~= v.drop_first().push(x));
        lemma_ser_strings_push(v.drop_first(), x);
        assert(ser_strings(d) == ser_strings(v.drop_first()) + ser_string(x));
        assert(ser_strings(v.push(x)) =~= ser_strings(v) + ser_string(x));
    }
}

/// Appending one pair extends the run encoding by that pair's encoding.
proof fn lemma_ser_pairs_push(v: Seq<(Seq<char>, Seq<char>)>, x: (Seq<char>, Seq<char>))
    ensures
        ser_pairs(v.push(x)) == ser_pairs(v) + (ser_string(x.0) + ser_string(x.1)),
    decreases v.len(),
{
    let d = v.push(x).drop_first();
    if v.len() == 0 {
        assert(v.push(x)[0] == x);
        assert(d =~= Seq::<(Seq<char>, Seq<char>)>::empty());
        assert(ser_pairs(d) =~= Seq::<u8>::empty());
        assert(ser_pairs(v) =~= Seq::<u8>::empty());
        assert(ser_pairs(v.push(x)) =~= ser_pairs(v) + (ser_string(x.0) + ser_string(x.1)));
    } else {
        assert(v.push(x)[0] == v[0]);
        assert(d =~= v.drop_first().push(x));
        lemma_ser_pairs_push(v.drop_first(), x);
        assert(ser_pairs(d) == ser_pairs(v.drop_first()) + (ser_string(x.0) + ser_string(x.1)));
        assert(ser_pairs(v.push(x)) =~= ser_pairs(v) + (ser_string(x.0) + ser_string(x.1)));
    }
}

fn w_string_vec(out: &mut Vec<u8>, v: &Vec<String>)
    requires
        wf_fields(strings_view(v@)),
    ensures
        final(out)@ == old(out)@ + ser_string_vec(strings_view(v@)),
{
    w_u32(out, v.len() as u32);
    let mut i: usize = 0;
    while i < v.len()
        invariant
            i <= v@.len(),
            wf_fields(strings_view(v@)),
            out@ == old(out)@ + ser_u32(v@.len() as int)
                + ser_strings(strings_view(v@).take(i as int)),
        decreases v@.len() - i,
    {
        proof {
            assert(strings_view(v@)[i as int] == v@[i as int]@);
            assert(strings_view(v@).take(i as int).push(v@[i as int]@)
                =~= strings_view(v@).take(i as int + 1));
            lemma_ser_strings_push(strings_view(v@).take(i as int), v@[i as int]@);
        }
        w_string(out, &v[i]);
        proof {
            assert(out@ =~= old(out)@ + ser_u32(v@.len() as int)
                + ser_strings(strings_view(v@).take(i as int + 1)));
        }
        i = i + 1;
    }
    proof {
        assert(strings_view(v@).take(v@.len() as int) =~= strings_view(v@));
        assert(final(out)@ =~= old(out)@ + ser_string_vec(strings_view(v@)));
    }
}

fn w_pair_vec(out: &mut Vec<u8>, v: &Vec<(String, String)>)
    requires
        wf_pairs(pairs_view(v@)),
    ensures
        final(out)@ == old(out)@ + ser_pair_vec(pairs_view(v@)),
{
    w_u32(out, v.len() as u32);
    let mut i: usize = 0;
    while i < v.len()
        invariant
            i <= v@.len(),
            wf_pairs(pairs_view(v@)),
            out@ == old(out)@ + ser_u32(v@.len() as int)
                + ser_pairs(pairs_view(v@).take(i as int)),
        decreases v@.len() - i,
    {
        proof {
            assert(pairs_view(v@)[i as int] == (v@[i as int].0@, v@[i as int].1@));
            assert(pairs_view(v@).take(i as int).push((v@[i as int].0@, v@[i as int].1@))
                =~= pairs_view(v@).take(i as int + 1));
            lemma_ser_pairs_push(pairs_view(v@).take(i as int),
                (v@[i as int].0@, v@[i as int].1@));
        }
        w_string(out, &v[i].0);
        w_string(out, &v[i].1);
        proof {
            assert(out@ =~= old(out)@ + ser_u32(v@.len() as int)
                + ser_pairs(pairs_view(v@).take(i as int + 1)));
        }
        i = i + 1;
    }
    proof {
        assert(pairs_view(v@).take(v@.len() as int) =~= pairs_view(v@));
        assert(final(out)@ =~= old(out)@ + ser_pair_vec(pairs_view(v@)));
    }
}

// ---------------------------------------------------------------------------
// The compression codec
// ---------------------------------------------------------------------------

/// What the compression codec's streaming decoder yields for a given input:
/// the decompressed bytes on a clean decode, and nothing on a failed one.
pub uninterp spec fn brotli_inflate_of(input: Seq<u8>) -> Seq<u8>;

/// Relies on `brotli::Decompressor` (read through `Read::read_to_end`): the
/// result is a function of the input bytes alone, and an empty input yields
/// an empty result, because the decoder then reports invalid data before
/// producing any byte.
#[verifier::external_body]
fn brotli_decompress_raw(input: &Vec<u8>) -> (r: Vec<u8>)
    ensures
        r@ == brotli_inflate_of(input@),
        input@.len() == 0 ==> r@.len() == 0,
{
    let mut decompressed_data = Vec::new();
    let mut decompressor = brotli::Decompressor::new(input.as_slice(), 4096);
    match std::io::Read::read_to_end(&mut decompressor, &mut decompressed_data) {
        Ok(_) => decompressed_data,
        Err(_) => Vec::new(),
    }
}

impl EncodingUtils {
    /// Applies the compression codec's streaming decoder. A failed decode is
    /// not propagated: it comes back as an empty byte sequence, so this
    /// function never fails and an empty input yields an empty output.
    pub fn brotli_decompress(input: Vec<u8>) -> (r: Result<Vec<u8>, DecodeError>)
        ensures
            r matches Ok(v) && v@ == brotli_inflate_of(input@),
            input@.len() == 0 ==> (r matches Ok(v) && v@.len() == 0),
    {
        Ok(brotli_decompress_raw(&input))
    }

    /// Decodes the versioned archived-block schema: empty input and
    /// unsupported version tags are rejected before the field list is read,
    /// and trailing bytes are rejected after it.
    pub fn borsh_deserialize(input: Vec<u8>) -> (r: Result<Block, DecodeError>)
        ensures
            r matches Ok(b) ==> sp_block(input@) == Ok::<BlockModel, DecodeError>(b@),
            r matches Err(e) ==> sp_block(input@) == Err::<BlockModel, DecodeError>(e),
    {
        if input.len() == 0 {
            return Err(DecodeError::EmptyInput);
        }
        if input[0] != 0 {
            return Err(DecodeError::UnsupportedVersion);
        }
        match p_block_fields(&input, 1) {
            Some((b, j)) => {
                if j == input.len() {
                    Ok(b)
                } else {
                    Err(DecodeError::Malformed)
                }
            },
            None => Err(DecodeError::Malformed),
        }
    }

    /// Decodes the nested archiver record (same field family, flat
    /// transaction list, no version tag).
    pub fn wvm_archiver_borsh_deserialize(input: Vec<u8>) -> (r: Result<
        WeaveVMArchiverBlock,
        DecodeError,
    >)
        ensures
            r matches Ok(b) ==> sp_archiver(input@) == Ok::<ArchiverBlockModel, DecodeError>(b@),
            r matches Err(e) ==> sp_archiver(input@) == Err::<ArchiverBlockModel, DecodeError>(e),
    {
        if input.len() == 0 {
            return Err(DecodeError::EmptyInput);
        }
        match p_archiver_fields(&input, 0) {
            Some((b, j)) => {
                if j == input.len() {
                    Ok(b)
                } else {
                    Err(DecodeError::Malformed)
                }
            },
            None => Err(DecodeError::Malformed),
        }
    }

    /// Serializes an archived block under the supported version tag.
    pub fn borsh_serialize(block: &Block) -> (r: Vec<u8>)
        requires
            block@.wf(),
        ensures
            r@ == ser_block(block@),
    {
        let mut out: Vec<u8> = Vec::new();
        out.push(0);
        w_block_fields(&mut out, block);
        proof {
            assert(out@ =~= ser_block(block@));
        }
        out
    }

    /// Serializes the nested archiver record (no version tag).
    pub fn wvm_archiver_borsh_serialize(block: &WeaveVMArchiverBlock) -> (r: Vec<u8>)
        requires
            block@.wf(),
        ensures
            r@ == ser_archiver(block@),
    {
        let mut out: Vec<u8> = Vec::new();
        w_archiver_fields(&mut out, block);
        proof {
            assert(out@ =~= ser_archiver(block@));
        }
        out
    }
}

/// The views of a run of optional string fields.
pub open spec fn opts_view(v: Seq<Option<String>>) -> Seq<Option<Seq<char>>> {
    v.map_values(|o: Option<String>| opt_view(o))
}

#[verifier::loop_isolation(false)]
fn p_opt_strings(s: &Vec<u8>, i: usize, n: u32) -> (r: Option<(Vec<Option<String>>, usize)>)
    requires
        i <= s@.len(),
    ensures
        r matches Some(p) ==> sp_opt_strings(s@, i as int, n as nat)
            == Some((opts_view(p.0@), p.1 as int)) && i <= p.1 <= s@.len(),
        r is None ==> sp_opt_strings(s@, i as int, n as nat) is None,
{
    let mut acc: Vec<Option<String>> = Vec::new();
    let mut j: usize = i;
    let mut k: u32 = 0;
    proof {
        match sp_opt_strings(s@, i as int, n as nat) {
            Some(p) => {
                assert(opts_view(acc@) + p.0 =~= p.0);
            },
            None => {},
        }
    }
    while k < n
        invariant
            k <= n,
            i <= j <= s@.len(),
            sp_opt_strings(s@, j as int, (n - k) as nat) matches Some(p)
                ==> sp_opt_strings(s@, i as int, n as nat)
                    == Some((opts_view(acc@) + p.0, p.1)),
            sp_opt_strings(s@, j as int, (n - k) as nat) is None
                ==> sp_opt_strings(s@, i as int, n as nat) is None,
        decreases n - k,
    {
        match p_opt_string(s, j) {
            Some((v, j2)) => {
                proof {
                    let m = (n - k) as nat;
                    let tail = sp_opt_strings(s@, j2 as int, (m - 1) as nat);
                    match tail {
                        Some((vs3, end)) => {
                            assert(sp_opt_strings(s@, j as int, m)
                                == Some((seq![opt_view(v)] + vs3, end)));
                            assert(opts_view(acc@.push(v)) + vs3
                                =~= opts_view(acc@) + (seq![opt_view(v)] + vs3));
                        },
                        None => {
                            assert(sp_opt_strings(s@, j as int, m) is None);
                        },
                    }
                }
                acc.push(v);
                j = j2;
                k = k + 1;
            },
            None => {
                proof {
                    assert(sp_opt_strings(s@, j as int, (n - k) as nat) is None);
                }
                return None;
            },
        }
    }
    proof {
        assert(sp_opt_strings(s@, j as int, 0)
            == Some((Seq::<Option<Seq<char>>>::empty(), j as int)));
        assert(opts_view(acc@) + Seq::<Option<Seq<char>>>::empty() =~= opts_view(acc@));
    }
    Some((acc, j))
}

/// Takes the front element off a run of parsed optional fields.
fn take_first_opt(v: &mut Vec<Option<String>>) -> (r: Option<String>)
    requires
        old(v)@.len() > 0,
    ensures
        r == old(v)@[0],
        final(v)@ == old(v)@.drop_first(),
    {
    let e = v.remove(0);
    proof {
        assert(final(v)@ =~= old(v)@.drop_first());
    }
    e
}

#[verifier::rlimit(60)]
#[verifier::spinoff_prover]
fn p_block_fields(s: &Vec<u8>, i: usize) -> (r: Option<(Block, usize)>)
    requires
        i <= s@.len(),
    ensures
        r matches Some(p) ==> sp_block_fields(s@, i as int) == Some((p.0@, p.1 as int))
            && i <= p.1 <= s@.len(),
        r is None ==> sp_block_fields(s@, i as int) is None,
{
    let ghost i0 = i as int;
    let (mut h, i) = match p_opt_strings(s, i, 16) { Some(p) => p, None => return None };
    let (seal_fields, i) = match p_string_vec(s, i) { Some(p) => p, None => return None };
    let ghost iu = i as int;
    let (mut u, i) = match p_opt_strings(s, i, 5) { Some(p) => p, None => return None };
    let (transactions_and_calldata, i) = match p_pair_vec(s, i) { Some(p) => p, None => return None };
    proof {
        lemma_sp_opt_strings_len(s@, i0, 16);
        lemma_sp_opt_strings_len(s@, iu, 5);
    }
    let ghost h0 = h@;
    let ghost u0 = u@;
    let base_fee_per_gas = take_first_opt(&mut h);
    let blob_gas_used = take_first_opt(&mut h);
    let difficulty = take_first_opt(&mut h);
    let excess_blob_gas = take_first_opt(&mut h);
    let extra_data = take_first_opt(&mut h);
    let gas_limit = take_first_opt(&mut h);
    let gas_used = take_first_opt(&mut h);
    let hash = take_first_opt(&mut h);
    let logs_bloom = take_first_opt(&mut h);
    let miner = take_first_opt(&mut h);
    let mix_hash = take_first_opt(&mut h);
    let nonce = take_first_opt(&mut h);
    let number = take_first_opt(&mut h);
    let parent_beacon_block_root = take_first_opt(&mut h);
    let parent_hash = take_first_opt(&mut h);
    let receipts_root = take_first_opt(&mut h);
    let sha3_uncles = take_first_opt(&mut u);
    let size = take_first_opt(&mut u);
    let state_root = take_first_opt(&mut u);
    let timestamp = take_first_opt(&mut u);
    let total_difficulty = take_first_opt(&mut u);
    let b = Block {
        base_fee_per_gas, blob_gas_used, difficulty, excess_blob_gas, extra_data, gas_limit,
        gas_used, hash, logs_bloom, miner, mix_hash, nonce, number, parent_beacon_block_root,
        parent_hash, receipts_root, seal_fields, sha3_uncles, size, state_root, timestamp,
        total_difficulty, transactions_and_calldata,
    };
    proof {
        match sp_block_fields(s@, i0) {
            Some(p) => {
                assert(b@ =~= p.0);
                assert(sp_block_fields(s@, i0) == Some((b@, i as int)));
            },
            None => {
                assert(false);
            },
        }
    }
    Some((b, i))
}

#[verifier::rlimit(60)]
#[verifier::spinoff_prover]
fn p_archiver_fields(s: &Vec<u8>, i: usize) -> (r: Option<(WeaveVMArchiverBlock, usize)>)
    requires
        i <= s@.len(),
    ensures
        r matches Some(p) ==> sp_archiver_fields(s@, i as int) == Some((p.0@, p.1 as int))
            && i <= p.1 <= s@.len(),
        r is None ==> sp_archiver_fields(s@, i as int) is None,
{
    let ghost i0 = i as int;
    let (mut h, i) = match p_opt_strings(s, i, 16) { Some(p) => p, None => return None };
    let (seal_fields, i) = match p_string_vec(s, i) { Some(p) => p, None => return None };
    let ghost iu = i as int;
    let (mut u, i) = match p_opt_strings(s, i, 5) { Some(p) => p, None => return None };
    let (transactions, i) = match p_string_vec(s, i) { Some(p) => p, None => return None };
    proof {
        lemma_sp_opt_strings_len(s@, i0, 16);
        lemma_sp_opt_strings_len(s@, iu, 5);
    }
    let ghost h0 = h@;
    let ghost u0 = u@;
    let base_fee_per_gas = take_first_opt(&mut h);
    let blob_gas_used = take_first_opt(&mut h);
    let difficulty = take_first_opt(&mut h);
    let excess_blob_gas = take_first_opt(&mut h);
    let extra_data = take_first_opt(&mut h);
    let gas_limit = take_first_opt(&mut h);
    let gas_used = take_first_opt(&mut h);
    let hash = take_first_opt(&mut h);
    let logs_bloom = take_first_opt(&mut h);
    let miner = take_first_opt(&mut h);
    let mix_hash = take_first_opt(&mut h);
    let nonce = take_first_opt(&mut h);
    let number = take_first_opt(&mut h);
    let parent_beacon_block_root = take_first_opt(&mut h);
    let parent_hash = take_first_opt(&mut h);
    let receipts_root = take_first_opt(&mut h);
    let sha3_uncles = take_first_opt(&mut u);
    let size = take_first_opt(&mut u);
    let state_root = take_first_opt(&mut u);
    let timestamp = take_first_opt(&mut u);
    let total_difficulty = take_first_opt(&mut u);
    let b = WeaveVMArchiverBlock {
        base_fee_per_gas, blob_gas_used, difficulty, excess_blob_gas, extra_data, gas_limit,
        gas_used, hash, logs_bloom, miner, mix_hash, nonce, number, parent_beacon_block_root,
        parent_hash, receipts_root, seal_fields, sha3_uncles, size, state_root, timestamp,
        total_difficulty, transactions,
    };
    proof {
        match sp_archiver_fields(s@, i0) {
            Some(p) => {
                assert(b@ =~= p.0);
                assert(sp_archiver_fields(s@, i0) == Some((b@, i as int)));
            },
            None => {
                assert(false);
            },
        }
    }
    Some((b, i))
}

#[verifier::rlimit(100)]
#[verifier::spinoff_prover]
fn w_block_fields(out: &mut Vec<u8>, b: &Block)
    requires
        b@.wf(),
    ensures
        final(out)@ == old(out)@ + ser_block_fields(b@),
{
    let ghost hd = block_header_fields(b@);
    let ghost tr = block_trailer_fields(b@);
    proof {
        assert(forall|k: int| 0 <= k < hd.len() ==> wf_opt_field(#[trigger] hd[k]));
        assert(forall|k: int| 0 <= k < tr.len() ==> wf_opt_field(#[trigger] tr[k]));
        assert(hd.take(0) =~= Seq::<Option<Seq<char>>>::empty());
        assert(out@ == old(out)@ + ser_opt_strings(hd.take(0)));
    }
    w_opt_string(out, &b.base_fee_per_gas);
    proof {
        lemma_concat_associative(old(out)@, ser_opt_strings(hd.take(0)), ser_opt_string(hd[0]));
        lemma_ser_opt_strings_push(hd.take(0), hd[0]);
        assert(hd.take(0).push(hd[0]) =~= hd.take(1));
        assert(out@ == old(out)@ + ser_opt_strings(hd.take(1)));
    }
    w_opt_string(out, &b.blob_gas_used);
    proof {
        lemma_concat_associative(old(out)@, ser_opt_strings(hd.take(1)), ser_opt_string(hd[1]));
        lemma_ser_opt_strings_push(hd.take(1), hd[1]);
        assert(hd.take(1).push(hd[1]) =~= hd.take(2));
        assert(out@ == old(out)@ + ser_opt_strings(hd.take(2)));
    }
    w_opt_string(out, &b.difficulty);
    proof {
        lemma_concat_associative(old(out)@, ser_opt_strings(hd.take(2)), ser_opt_string(hd[2]));
        lemma_ser_opt_strings_push(hd.take(2), hd[2]);
        assert(hd.take(2).push(hd[2]) =~= hd.take(3));
        assert(out@ == old(out)@ + ser_opt_strings(hd.take(3)));
    }
    w_opt_string(out, &b.excess_blob_gas);
    proof {
        lemma_concat_associative(old(out)@, ser_opt_strings(hd.take(3)), ser_opt_string(hd[3]));
        lemma_ser_opt_strings_push(hd.take(3), hd[3]);
        assert(hd.take(3).push(hd[3]) =~= hd.take(4));
        assert(out@ == old(out)@ + ser_opt_strings(hd.take(4)));
    }
    w_opt_string(out, &b.extra_data);
    proof {
        lemma_concat_associative(old(out)@, ser_opt_strings(hd.take(4)), ser_opt_string(hd[4]));
        lemma_ser_opt_strings_push(hd.take(4), hd[4]);
        assert(hd.take(4).push(hd[4]) =~= hd.take(5));
        assert(out@ == old(out)@ + ser_opt_strings(hd.take(5)));
    }
    w_opt_string(out, &b.gas_limit);
    proof {
        lemma_concat_associative(old(out)@, ser_opt_strings(hd.take(5)), ser_opt_string(hd[5]));
        lemma_ser_opt_strings_push(hd.take(5), hd[5]);
        assert(hd.take(5).push(hd[5]) =~= hd.take(6));
        assert(out@ == old(out)@ + ser_opt_strings(hd.take(6)));
    }
    w_opt_string(out, &b.gas_used);
    proof {
        lemma_concat_associative(old(out)@, ser_opt_strings(hd.take(6)), ser_opt_string(hd[6]));
        lemma_ser_opt_strings_push(hd.take(6), hd[6]);
        assert(hd.take(6).push(hd[6]) =~= hd.take(7));
        assert(out@ == old(out)@ + ser_opt_strings(hd.take(7)));
    }
    w_opt_string(out, &b.hash);
    proof {
        lemma_concat_associative(old(out)@, ser_opt_strings(hd.take(7)), ser_opt_string(hd[7]));
        lemma_ser_opt_strings_push(hd.take(7), hd[7]);
        assert(hd.take(7).push(hd[7]) =~= hd.take(8));
        assert(out@ == old(out)@ + ser_opt_strings(hd.take(8)));
    }
    w_opt_string(out, &b.logs_bloom);
    proof {
        lemma_concat_associative(old(out)@, ser_opt_strings(hd.take(8)), ser_opt_string(hd[8]));
        lemma_ser_opt_strings_push(hd.take(8), hd[8]);
        assert(hd.take(8).push(hd[8]) =~= hd.take(9));
        assert(out@ == old(out)@ + ser_opt_strings(hd.take(9)));
    }
    w_opt_string(out, &b.miner);
    proof {
        lemma_concat_associative(old(out)@, ser_opt_strings(hd.take(9)), ser_opt_string(hd[9]));
        lemma_ser_opt_strings_push(hd.take(9), hd[9]);
        assert(hd.take(9).push(hd[9]) =~= hd.take(10));
        assert(out@ == old(out)@ + ser_opt_strings(hd.take(10)));
    }
    w_opt_string(out, &b.mix_hash);
    proof {
        lemma_concat_associative(old(out)@, ser_opt_strings(hd.take(10)), ser_opt_string(hd[10]));
        lemma_ser_opt_strings_push(hd.take(10), hd[10]);
        assert(hd.take(10).push(hd[10]) =~= hd.take(11));
        assert(out@ == old(out)@ + ser_opt_strings(hd.take(11)));
    }
    w_opt_string(out, &b.nonce);
    proof {
        lemma_concat_associative(old(out)@, ser_opt_strings(hd.take(11)), ser_opt_string(hd[11]));
        lemma_ser_opt_strings_push(hd.take(11), hd[11]);
        assert(hd.take(11).push(hd[11]) =~= hd.take(12));
        assert(out@ == old(out)@ + ser_opt_strings(hd.take(12)));
    }
    w_opt_string(out, &b.number);
    proof {
        lemma_concat_associative(old(out)@, ser_opt_strings(hd.take(12)), ser_opt_string(hd[12]));
        lemma_ser_opt_strings_push(hd.take(12), hd[12]);
        assert(hd.take(12).push(hd[12]) =~= hd.take(13));
        assert(out@ == old(out)@ + ser_opt_strings(hd.take(13)));
    }
    w_opt_string(out, &b.parent_beacon_block_root);
    proof {
        lemma_concat_associative(old(out)@, ser_opt_strings(hd.take(13)), ser_opt_string(hd[13]));
        lemma_ser_opt_strings_push(hd.take(13), hd[13]);
        assert(hd.take(13).push(hd[13]) =~= hd.take(14));
        assert(out@ == old(out)@ + ser_opt_strings(hd.take(14)));
    }
    w_opt_string(out, &b.parent_hash);
    proof {
        lemma_concat_associative(old(out)@, ser_opt_strings(hd.take(14)), ser_opt_string(hd[14]));
        lemma_ser_opt_strings_push(hd.take(14), hd[14]);
        assert(hd.take(14).push(hd[14]) =~= hd.take(15));
        assert(out@ == old(out)@ + ser_opt_strings(hd.take(15)));
    }
    w_opt_string(out, &b.receipts_root);
    proof {
        lemma_concat_associative(old(out)@, ser_opt_strings(hd.take(15)), ser_opt_string(hd[15]));
        lemma_ser_opt_strings_push(hd.take(15), hd[15]);
        assert(hd.take(15).push(hd[15]) =~= hd.take(16));
        assert(out@ == old(out)@ + ser_opt_strings(hd.take(16)));
    }
    proof {
        assert(hd.take(16) =~= hd);
    }
    w_string_vec(out, &b.seal_fields);
    proof {
        lemma_concat_associative(old(out)@, ser_opt_strings(hd), ser_string_vec(b@.seal_fields));
        assert(out@ == old(out)@ + (ser_opt_strings(hd) + ser_string_vec(b@.seal_fields)));
        assert(tr.take(0) =~= Seq::<Option<Seq<char>>>::empty());
        assert(out@ == old(out)@ + ((ser_opt_strings(hd) + ser_string_vec(b@.seal_fields)) + ser_opt_strings(tr.take(0))));
    }
    w_opt_string(out, &b.sha3_uncles);
    proof {
        let x = ser_opt_strings(hd) + ser_string_vec(b@.seal_fields);
        lemma_concat_associative(old(out)@, x + ser_opt_strings(tr.take(0)), ser_opt_string(tr[0]));
        lemma_concat_associative(x, ser_opt_strings(tr.take(0)), ser_opt_string(tr[0]));
        lemma_ser_opt_strings_push(tr.take(0), tr[0]);
        assert(tr.take(0).push(tr[0]) =~= tr.take(1));
        assert(out@ == old(out)@ + (x + ser_opt_strings(tr.take(1))));
    }
    w_opt_string(out, &b.size);
    proof {
        let x = ser_opt_strings(hd) + ser_string_vec(b@.seal_fields);
        lemma_concat_associative(old(out)@, x + ser_opt_strings(tr.take(1)), ser_opt_string(tr[1]));
        lemma_concat_associative(x, ser_opt_strings(tr.take(1)), ser_opt_string(tr[1]));
        lemma_ser_opt_strings_push(tr.take(1), tr[1]);
        assert(tr.take(1).push(tr[1]) =~= tr.take(2));
        assert(out@ == old(out)@ + (x + ser_opt_strings(tr.take(2))));
    }
    w_opt_string(out, &b.state_root);
    proof {
        let x = ser_opt_strings(hd) + ser_string_vec(b@.seal_fields);
        lemma_concat_associative(old(out)@, x + ser_opt_strings(tr.take(2)), ser_opt_string(tr[2]));
        lemma_concat_associative(x, ser_opt_strings(tr.take(2)), ser_opt_string(tr[2]));
        lemma_ser_opt_strings_push(tr.take(2), tr[2]);
        assert(tr.take(2).push(tr[2]) =~= tr.take(3));
        assert(out@ == old(out)@ + (x + ser_opt_strings(tr.take(3))));
    }
    w_opt_string(out, &b.timestamp);
    proof {
        let x = ser_opt_strings(hd) + ser_string_vec(b@.seal_fields);
        lemma_concat_associative(old(out)@, x + ser_opt_strings(tr.take(3)), ser_opt_string(tr[3]));
        lemma_concat_associative(x, ser_opt_strings(tr.take(3)), ser_opt_string(tr[3]));
        lemma_ser_opt_strings_push(tr.take(3), tr[3]);
        assert(tr.take(3).push(tr[3]) =~= tr.take(4));
        assert(out@ == old(out)@ + (x + ser_opt_strings(tr.take(4))));
    }
    w_opt_string(out, &b.total_difficulty);
    proof {
        let x = ser_opt_strings(hd) + ser_string_vec(b@.seal_fields);
        lemma_concat_associative(old(out)@, x + ser_opt_strings(tr.take(4)), ser_opt_string(tr[4]));
        lemma_concat_associative(x, ser_opt_strings(tr.take(4)), ser_opt_string(tr[4]));
        lemma_ser_opt_strings_push(tr.take(4), tr[4]);
        assert(tr.take(4).push(tr[4]) =~= tr.take(5));
        assert(out@ == old(out)@ + (x + ser_opt_strings(tr.take(5))));
    }
    proof {
        assert(tr.take(5) =~= tr);
    }
    w_pair_vec(out, &b.transactions_and_calldata);
    proof {
        let x = (ser_opt_strings(hd) + ser_string_vec(b@.seal_fields)) + ser_opt_strings(tr);
        lemma_concat_associative(old(out)@, x, ser_pair_vec(b@.transactions_and_calldata));
        assert(final(out)@ == old(out)@ + ser_block_fields(b@));
    }
}

#[verifier::rlimit(100)]
#[verifier::spinoff_prover]
fn w_archiver_fields(out: &mut Vec<u8>, b: &WeaveVMArchiverBlock)
    requires
        b@.wf(),
    ensures
        final(out)@ == old(out)@ + ser_archiver_fields(b@),
{
    let ghost hd = archiver_header_fields(b@);
    let ghost tr = archiver_trailer_fields(b@);
    proof {
        assert(forall|k: int| 0 <= k < hd.len() ==> wf_opt_field(#[trigger] hd[k]));
        assert(forall|k: int| 0 <= k < tr.len() ==> wf_opt_field(#[trigger] tr[k]));
        assert(hd.take(0) =~= Seq::<Option<Seq<char>>>::empty());
        assert(out@ == old(out)@ + ser_opt_strings(hd.take(0)));
    }
    w_opt_string(out, &b.base_fee_per_gas);
    proof {
        lemma_concat_associative(old(out)@, ser_opt_strings(hd.take(0)), ser_opt_string(hd[0]));
        lemma_ser_opt_strings_push(hd.take(0), hd[0]);
        assert(hd.take(0).push(hd[0]) =~= hd.take(1));
        assert(out@ == old(out)@ + ser_opt_strings(hd.take(1)));
    }
    w_opt_string(out, &b.blob_gas_used);
    proof {
        lemma_concat_associative(old(out)@, ser_opt_strings(hd.take(1)), ser_opt_string(hd[1]));
        lemma_ser_opt_strings_push(hd.take(1), hd[1]);
        assert(hd.take(1).push(hd[1]) =~= hd.take(2));
        assert(out@ == old(out)@ + ser_opt_strings(hd.take(2)));
    }
    w_opt_string(out, &b.difficulty);
    proof {
        lemma_concat_associative(old(out)@, ser_opt_strings(hd.take(2)), ser_opt_string(hd[2]));
        lemma_ser_opt_strings_push(hd.take(2), hd[2]);
        assert(hd.take(2).push(hd[2]) =~= hd.take(3));
        assert(out@ == old(out)@ + ser_opt_strings(hd.take(3)));
    }
    w_opt_string(out, &b.excess_blob_gas);
    proof {
        lemma_concat_associative(old(out)@, ser_opt_strings(hd.take(3)), ser_opt_string(hd[3]));
        lemma_ser_opt_strings_push(hd.take(3), hd[3]);
        assert(hd.take(3).push(hd[3]) =~= hd.take(4));
        assert(out@ == old(out)@ + ser_opt_strings(hd.take(4)));
    }
    w_opt_string(out, &b.extra_data);
    proof {
        lemma_concat_associative(old(out)@, ser_opt_strings(hd.take(4)), ser_opt_string(hd[4]));
        lemma_ser_opt_strings_push(hd.take(4), hd[4]);
        assert(hd.take(4).push(hd[4]) =~= hd.take(5));
        assert(out@ == old(out)@ + ser_opt_strings(hd.take(5)));
    }
    w_opt_string(out, &b.gas_limit);
    proof {
        lemma_concat_associative(old(out)@, ser_opt_strings(hd.take(5)), ser_opt_string(hd[5]));
        lemma_ser_opt_strings_push(hd.take(5), hd[5]);
        assert(hd.take(5).push(hd[5]) =~= hd.take(6));
        assert(out@ == old(out)@ + ser_opt_strings(hd.take(6)));
    }
    w_opt_string(out, &b.gas_used);
    proof {
        lemma_concat_associative(old(out)@, ser_opt_strings(hd.take(6)), ser_opt_string(hd[6]));
        lemma_ser_opt_strings_push(hd.take(6), hd[6]);
        assert(hd.take(6).push(hd[6]) =~= hd.take(7));
        assert(out@ == old(out)@ + ser_opt_strings(hd.take(7)));
    }
    w_opt_string(out, &b.hash);
    proof {
        lemma_concat_associative(old(out)@, ser_opt_strings(hd.take(7)), ser_opt_string(hd[7]));
        lemma_ser_opt_strings_push(hd.take(7), hd[7]);
        assert(hd.take(7).push(hd[7]) =~= hd.take(8));
        assert(out@ == old(out)@ + ser_opt_strings(hd.take(8)));
    }
    w_opt_string(out, &b.logs_bloom);
    proof {
        lemma_concat_associative(old(out)@, ser_opt_strings(hd.take(8)), ser_opt_string(hd[8]));
        lemma_ser_opt_strings_push(hd.take(8), hd[8]);
        assert(hd.take(8).push(hd[8]) =~= hd.take(9));
        assert(out@ == old(out)@ + ser_opt_strings(hd.take(9)));
    }
    w_opt_string(out, &b.miner);
    proof {
        lemma_concat_associative(old(out)@, ser_opt_strings(hd.take(9)), ser_opt_string(hd[9]));
        lemma_ser_opt_strings_push(hd.take(9), hd[9]);
        assert(hd.take(9).push(hd[9]) =~= hd.take(10));
        assert(out@ == old(out)@ + ser_opt_strings(hd.take(10)));
    }
    w_opt_string(out, &b.mix_hash);
    proof {
        lemma_concat_associative(old(out)@, ser_opt_strings(hd.take(10)), ser_opt_string(hd[10]));
        lemma_ser_opt_strings_push(hd.take(10), hd[10]);
        assert(hd.take(10).push(hd[10]) =~= hd.take(11));
        assert(out@ == old(out)@ + ser_opt_strings(hd.take(11)));
    }
    w_opt_string(out, &b.nonce);
    proof {
        lemma_concat_associative(old(out)@, ser_opt_strings(hd.take(11)), ser_opt_string(hd[11]));
        lemma_ser_opt_strings_push(hd.take(11), hd[11]);
        assert(hd.take(11).push(hd[11]) =~= hd.take(12));
        assert(out@ == old(out)@ + ser_opt_strings(hd.take(12)));
    }
    w_opt_string(out, &b.number);
    proof {
        lemma_concat_associative(old(out)@, ser_opt_strings(hd.take(12)), ser_opt_string(hd[12]));
        lemma_ser_opt_strings_push(hd.take(12), hd[12]);
        assert(hd.take(12).push(hd[12]) =~= hd.take(13));
        assert(out@ == old(out)@ + ser_opt_strings(hd.take(13)));
    }
    w_opt_string(out, &b.parent_beacon_block_root);
    proof {
        lemma_concat_associative(old(out)@, ser_opt_strings(hd.take(13)), ser_opt_string(hd[13]));
        lemma_ser_opt_strings_push(hd.take(13), hd[13]);
        assert(hd.take(13).push(hd[13]) =~= hd.take(14));
        assert(out@ == old(out)@ + ser_opt_strings(hd.take(14)));
    }
    w_opt_string(out, &b.parent_hash);
    proof {
        lemma_concat_associative(old(out)@, ser_opt_strings(hd.take(14)), ser_opt_string(hd[14]));
        lemma_ser_opt_strings_push(hd.take(14), hd[14]);
        assert(hd.take(14).push(hd[14]) =~= hd.take(15));
        assert(out@ == old(out)@ + ser_opt_strings(hd.take(15)));
    }
    w_opt_string(out, &b.receipts_root);
    proof {
        lemma_concat_associative(old(out)@, ser_opt_strings(hd.take(15)), ser_opt_string(hd[15]));
        lemma_ser_opt_strings_push(hd.take(15), hd[15]);
        assert(hd.take(15).push(hd[15]) =~= hd.take(16));
        assert(out@ == old(out)@ + ser_opt_strings(hd.take(16)));
    }
    proof {
        assert(hd.take(16) =~= hd);
    }
    w_string_vec(out, &b.seal_fields);
    proof {
        lemma_concat_associative(old(out)@, ser_opt_strings(hd), ser_string_vec(b@.seal_fields));
        assert(out@ == old(out)@ + (ser_opt_strings(hd) + ser_string_vec(b@.seal_fields)));
        assert(tr.take(0) =~= Seq::<Option<Seq<char>>>::empty());
        assert(out@ == old(out)@ + ((ser_opt_strings(hd) + ser_string_vec(b@.seal_fields)) + ser_opt_strings(tr.take(0))));
    }
    w_opt_string(out, &b.sha3_uncles);
    proof {
        let x = ser_opt_strings(hd) + ser_string_vec(b@.seal_fields);
        lemma_concat_associative(old(out)@, x + ser_opt_strings(tr.take(0)), ser_opt_string(tr[0]));
        lemma_concat_associative(x, ser_opt_strings(tr.take(0)), ser_opt_string(tr[0]));
        lemma_ser_opt_strings_push(tr.take(0), tr[0]);
        assert(tr.take(0).push(tr[0]) =~= tr.take(1));
        assert(out@ == old(out)@ + (x + ser_opt_strings(tr.take(1))));
    }
    w_opt_string(out, &b.size);
    proof {
        let x = ser_opt_strings(hd) + ser_string_vec(b@.seal_fields);
        lemma_concat_associative(old(out)@, x + ser_opt_strings(tr.take(1)), ser_opt_string(tr[1]));
        lemma_concat_associative(x, ser_opt_strings(tr.take(1)), ser_opt_string(tr[1]));
        lemma_ser_opt_strings_push(tr.take(1), tr[1]);
        assert(tr.take(1).push(tr[1]) =~= tr.take(2));
        assert(out@ == old(out)@ + (x + ser_opt_strings(tr.take(2))));
    }
    w_opt_string(out, &b.state_root);
    proof {
        let x = ser_opt_strings(hd) + ser_string_vec(b@.seal_fields);
        lemma_concat_associative(old(out)@, x + ser_opt_strings(tr.take(2)), ser_opt_string(tr[2]));
        lemma_concat_associative(x, ser_opt_strings(tr.take(2)), ser_opt_string(tr[2]));
        lemma_ser_opt_strings_push(tr.take(2), tr[2]);
        assert(tr.take(2).push(tr[2]) =~= tr.take(3));
        assert(out@ == old(out)@ + (x + ser_opt_strings(tr.take(3))));
    }
    w_opt_string(out, &b.timestamp);
    proof {
        let x = ser_opt_strings(hd) + ser_string_vec(b@.seal_fields);
        lemma_concat_associative(old(out)@, x + ser_opt_strings(tr.take(3)), ser_opt_string(tr[3]));
        lemma_concat_associative(x, ser_opt_strings(tr.take(3)), ser_opt_string(tr[3]));
        lemma_ser_opt_strings_push(tr.take(3), tr[3]);
        assert(tr.take(3).push(tr[3]) =~= tr.take(4));
        assert(out@ == old(out)@ + (x + ser_opt_strings(tr.take(4))));
    }
    w_opt_string(out, &b.total_difficulty);
    proof {
        let x = ser_opt_strings(hd) + ser_string_vec(b@.seal_fields);
        lemma_concat_associative(old(out)@, x + ser_opt_strings(tr.take(4)), ser_opt_string(tr[4]));
        lemma_concat_associative(x, ser_opt_strings(tr.take(4)), ser_opt_string(tr[4]));
        lemma_ser_opt_strings_push(tr.take(4), tr[4]);
        assert(tr.take(4).push(tr[4]) =~= tr.take(5));
        assert(out@ == old(out)@ + (x + ser_opt_strings(tr.take(5))));
    }
    proof {
        assert(tr.take(5) =~= tr);
    }
    w_string_vec(out, &b.transactions);
    proof {
        let x = (ser_opt_strings(hd) + ser_string_vec(b@.seal_fields)) + ser_opt_strings(tr);
        lemma_concat_associative(old(out)@, x, ser_string_vec(b@.transactions));
        assert(final(out)@ == old(out)@ + ser_archiver_fields(b@));
    }
}

// ---------------------------------------------------------------------------
// The codec inverts itself: parsing what the serializer wrote yields the
// record back.
// ---------------------------------------------------------------------------

/// The four little-endian bytes of a length read back as that length.
proof fn lemma_le32_of_ser(n: u32)
    ensures
        ser_u32(n as int).len() == 4,
        le32_val(ser_u32(n as int)) == n,
{
    vstd::arithmetic::div_mod::lemma_fundamental_div_mod(n as int, 256);
    vstd::arithmetic::div_mod::lemma_fundamental_div_mod(n as int / 256, 256);
    vstd::arithmetic::div_mod::lemma_fundamental_div_mod(n as int / 65536, 256);
    vstd::arithmetic::div_mod::lemma_div_denominator(n as int, 256, 256);
    vstd::arithmetic::div_mod::lemma_div_denominator(n as int, 65536, 256);
    vstd::arithmetic::div_mod::lemma_basic_div(n as int / 16777216, 256);
}

/// A length written at position `i` is read back at position `i`.
proof fn lemma_parse_u32_at(s: Seq<u8>, i: int, n: u32)
    requires
        0 <= i,
        i + 4 <= s.len(),
        s.subrange(i, i + 4) == ser_u32(n as int),
    ensures
        sp_u32(s, i) == Some((n, i + 4)),
{
    lemma_le32_of_ser(n);
}

/// A byte string written at position `i` is read back at position `i`.
proof fn lemma_parse_bytes_at(s: Seq<u8>, i: int, b: Seq<u8>)
    requires
        0 <= i,
        b.len() < 0x1_0000_0000,
        i + 4 + b.len() <= s.len(),
        s.subrange(i, i + 4 + b.len()) == ser_bytes(b),
    ensures
        sp_bytes(s, i) == Some((b, i + 4 + b.len())),
{
    let ln = b.len() as int;
    assert forall|k: int| 0 <= k < 4 implies s.subrange(i, i + 4)[k] == ser_u32(ln)[k] by {
        assert(s.subrange(i, i + 4 + ln)[k] == ser_bytes(b)[k]);
    }
    assert(s.subrange(i, i + 4) =~= ser_u32(ln));
    lemma_parse_u32_at(s, i, b.len() as u32);
    assert forall|k: int| 0 <= k < ln implies s.subrange(i + 4, i + 4 + ln)[k] == b[k] by {
        assert(s.subrange(i, i + 4 + ln)[4 + k] == ser_bytes(b)[4 + k]);
    }
    assert(s.subrange(i + 4, i + 4 + ln) =~= b);
}

/// A string written at position `i` is read back at position `i`.
proof fn lemma_parse_string_at(s: Seq<u8>, i: int, v: Seq<char>)
    requires
        0 <= i,
        wf_field(v),
        i + ser_string(v).len() <= s.len(),
        s.subrange(i, i + ser_string(v).len()) == ser_string(v),
    ensures
        sp_string(s, i) == Some((v, i + ser_string(v).len())),
{
    broadcast use vstd::utf8::encode_utf8_valid_utf8, vstd::utf8::encode_utf8_decode_utf8;

    lemma_parse_bytes_at(s, i, encode_utf8(v));
}

/// An optional string written at position `i` is read back at position `i`.
proof fn lemma_parse_opt_string_at(s: Seq<u8>, i: int, v: Option<Seq<char>>)
    requires
        0 <= i,
        wf_opt_field(v),
        i + ser_opt_string(v).len() <= s.len(),
        s.subrange(i, i + ser_opt_string(v).len()) == ser_opt_string(v),
    ensures
        sp_opt_string(s, i) == Some((v, i + ser_opt_string(v).len())),
{
    let ll = ser_opt_string(v).len() as int;
    match v {
        None => {
            assert(s.subrange(i, i + ll)[0] == ser_opt_string(v)[0]);
            assert(s[i] == 0);
        },
        Some(x) => {
            assert(s.subrange(i, i + ll)[0] == ser_opt_string(v)[0]);
            assert(s[i] == 1);
            let sl = ser_string(x).len() as int;
            assert forall|k: int| 0 <= k < sl implies s.subrange(i + 1, i + 1 + sl)[k]
                == ser_string(x)[k] by {
                assert(s.subrange(i, i + ll)[1 + k] == ser_opt_string(v)[1 + k]);
            }
            assert(s.subrange(i + 1, i + 1 + sl) =~= ser_string(x));
            lemma_parse_string_at(s, i + 1, x);
        },
    }
}

/// A run of optional strings written at position `i` is read back, one field
/// at a time.
proof fn lemma_parse_opt_strings_at(s: Seq<u8>, i: int, v: Seq<Option<Seq<char>>>)
    requires
        0 <= i,
        forall|k: int| 0 <= k < v.len() ==> wf_opt_field(#[trigger] v[k]),
        i + ser_opt_strings(v).len() <= s.len(),
        s.subrange(i, i + ser_opt_strings(v).len()) == ser_opt_strings(v),
    ensures
        sp_opt_strings(s, i, v.len()) == Some((v, i + ser_opt_strings(v).len())),
    decreases v.len(),
{
    let ll = ser_opt_strings(v).len() as int;
    if v.len() == 0 {
        assert(v =~= Seq::<Option<Seq<char>>>::empty());
    } else {
        let c0 = ser_opt_string(v[0]);
        let rest = ser_opt_strings(v.drop_first());
        let c0l = c0.len() as int;
        assert forall|k: int| 0 <= k < c0l implies s.subrange(i, i + c0l)[k] == c0[k] by {
            assert(s.subrange(i, i + ll)[k] == ser_opt_strings(v)[k]);
        }
        assert(s.subrange(i, i + c0l) =~= c0);
        lemma_parse_opt_string_at(s, i, v[0]);
        let i2 = i + c0l;
        let rl = rest.len() as int;
        assert forall|k: int| 0 <= k < rl implies s.subrange(i2, i2 + rl)[k] == rest[k] by {
            assert(s.subrange(i, i + ll)[c0l + k] == ser_opt_strings(v)[c0l + k]);
        }
        assert(s.subrange(i2, i2 + rl) =~= rest);
        lemma_parse_opt_strings_at(s, i2, v.drop_first());
        assert(seq![v[0]] + v.drop_first() =~= v);
    }
}

/// A run of strings written at position `i` is read back, one string at a
/// time.
proof fn lemma_parse_strings_at(s: Seq<u8>, i: int, v: Seq<Seq<char>>)
    requires
        0 <= i,
        forall|k: int| 0 <= k < v.len() ==> wf_field(#[trigger] v[k]),
        i + ser_strings(v).len() <= s.len(),
        s.subrange(i, i + ser_strings(v).len()) == ser_strings(v),
    ensures
        sp_strings(s, i, v.len()) == Some((v, i + ser_strings(v).len())),
    decreases v.len(),
{
    let ll = ser_strings(v).len() as int;
    if v.len() == 0 {
        assert(v =~= Seq::<Seq<char>>::empty());
    } else {
        let c0 = ser_string(v[0]);
        let rest = ser_strings(v.drop_first());
        let c0l = c0.len() as int;
        assert forall|k: int| 0 <= k < c0l implies s.subrange(i, i + c0l)[k] == c0[k] by {
            assert(s.subrange(i, i + ll)[k] == ser_strings(v)[k]);
        }
        assert(s.subrange(i, i + c0l) =~= c0);
        lemma_parse_string_at(s, i, v[0]);
        let i2 = i + c0l;
        let rl = rest.len() as int;
        assert forall|k: int| 0 <= k < rl implies s.subrange(i2, i2 + rl)[k] == rest[k] by {
            assert(s.subrange(i, i + ll)[c0l + k] == ser_strings(v)[c0l + k]);
        }
        assert(s.subrange(i2, i2 + rl) =~= rest);
        lemma_parse_strings_at(s, i2, v.drop_first());
        assert(seq![v[0]] + v.drop_first() =~= v);
    }
}

/// A run of string pairs written at position `i` is read back, one pair at a
/// time.
proof fn lemma_parse_pairs_at(s: Seq<u8>, i: int, v: Seq<(Seq<char>, Seq<char>)>)
    requires
        0 <= i,
        forall|k: int| 0 <= k < v.len() ==> wf_field(#[trigger] v[k].0) && wf_field(v[k].1),
        i + ser_pairs(v).len() <= s.len(),
        s.subrange(i, i + ser_pairs(v).len()) == ser_pairs(v),
    ensures
        sp_pairs(s, i, v.len()) == Some((v, i + ser_pairs(v).len())),
    decreases v.len(),
{
    let ll = ser_pairs(v).len() as int;
    if v.len() == 0 {
        assert(v =~= Seq::<(Seq<char>, Seq<char>)>::empty());
    } else {
        let ca = ser_string(v[0].0);
        let cb = ser_string(v[0].1);
        let rest = ser_pairs(v.drop_first());
        let cal = ca.len() as int;
        let cbl = cb.len() as int;
        assert forall|k: int| 0 <= k < cal implies s.subrange(i, i + cal)[k] == ca[k] by {
            assert(s.subrange(i, i + ll)[k] == ser_pairs(v)[k]);
        }
        assert(s.subrange(i, i + cal) =~= ca);
        lemma_parse_string_at(s, i, v[0].0);
        let ib = i + cal;
        assert forall|k: int| 0 <= k < cbl implies s.subrange(ib, ib + cbl)[k] == cb[k] by {
            assert(s.subrange(i, i + ll)[cal + k] == ser_pairs(v)[cal + k]);
        }
        assert(s.subrange(ib, ib + cbl) =~= cb);
        lemma_parse_string_at(s, ib, v[0].1);
        let i2 = ib + cbl;
        let rl = rest.len() as int;
        assert forall|k: int| 0 <= k < rl implies s.subrange(i2, i2 + rl)[k] == rest[k] by {
            assert(s.subrange(i, i + ll)[cal + cbl + k] == ser_pairs(v)[cal + cbl + k]);
        }
        assert(s.subrange(i2, i2 + rl) =~= rest);
        lemma_parse_pairs_at(s, i2, v.drop_first());
        assert(seq![(v[0].0, v[0].1)] + v.drop_first() =~= v);
    }
}

/// A counted list of strings written at position `i` is read back.
proof fn lemma_parse_string_vec_at(s: Seq<u8>, i: int, v: Seq<Seq<char>>)
    requires
        0 <= i,
        wf_fields(v),
        i + ser_string_vec(v).len() <= s.len(),
        s.subrange(i, i + ser_string_vec(v).len()) == ser_string_vec(v),
    ensures
        sp_string_vec(s, i) == Some((v, i + ser_string_vec(v).len())),
{
    let ll = ser_string_vec(v).len() as int;
    assert forall|k: int| 0 <= k < 4 implies s.subrange(i, i + 4)[k] == ser_u32(v.len() as int)[k] by {
        assert(s.subrange(i, i + ll)[k] == ser_string_vec(v)[k]);
    }
    assert(s.subrange(i, i + 4) =~= ser_u32(v.len() as int));
    lemma_parse_u32_at(s, i, v.len() as u32);
    let i2 = i + 4;
    let rl = ser_strings(v).len() as int;
    assert forall|k: int| 0 <= k < rl implies s.subrange(i2, i2 + rl)[k] == ser_strings(v)[k] by {
        assert(s.subrange(i, i + ll)[4 + k] == ser_string_vec(v)[4 + k]);
    }
    assert(s.subrange(i2, i2 + rl) =~= ser_strings(v));
    lemma_parse_strings_at(s, i2, v);
}

/// A counted list of string pairs written at position `i` is read back.
proof fn lemma_parse_pair_vec_at(s: Seq<u8>, i: int, v: Seq<(Seq<char>, Seq<char>)>)
    requires
        0 <= i,
        wf_pairs(v),
        i + ser_pair_vec(v).len() <= s.len(),
        s.subrange(i, i + ser_pair_vec(v).len()) == ser_pair_vec(v),
    ensures
        sp_pair_vec(s, i) == Some((v, i + ser_pair_vec(v).len())),
{
    let ll = ser_pair_vec(v).len() as int;
    assert forall|k: int| 0 <= k < 4 implies s.subrange(i, i + 4)[k] == ser_u32(v.len() as int)[k] by {
        assert(s.subrange(i, i + ll)[k] == ser_pair_vec(v)[k]);
    }
    assert(s.subrange(i, i + 4) =~= ser_u32(v.len() as int));
    lemma_parse_u32_at(s, i, v.len() as u32);
    let i2 = i + 4;
    let rl = ser_pairs(v).len() as int;
    assert forall|k: int| 0 <= k < rl implies s.subrange(i2, i2 + rl)[k] == ser_pairs(v)[k] by {
        assert(s.subrange(i, i + ll)[4 + k] == ser_pair_vec(v)[4 + k]);
    }
    assert(s.subrange(i2, i2 + rl) =~= ser_pairs(v));
    lemma_parse_pairs_at(s, i2, v);
}

/// The serialized field list of an archived block, read back whole.
#[verifier::rlimit(60)]
#[verifier::spinoff_prover]
proof fn lemma_parse_block_fields_at(s: Seq<u8>, i: int, m: BlockModel)
    requires
        0 <= i,
        m.wf(),
        i + ser_block_fields(m).len() <= s.len(),
        s.subrange(i, i + ser_block_fields(m).len()) == ser_block_fields(m),
    ensures
        sp_block_fields(s, i) == Some((m, i + ser_block_fields(m).len())),
{
    let hd = block_header_fields(m);
    let tr = block_trailer_fields(m);
    let a = ser_opt_strings(hd);
    let b = ser_string_vec(m.seal_fields);
    let c = ser_opt_strings(tr);
    let d = ser_pair_vec(m.transactions_and_calldata);
    let ll = ser_block_fields(m).len() as int;
    let (al, bl, cl, dl) = (a.len() as int, b.len() as int, c.len() as int, d.len() as int);
    assert(forall|k: int| 0 <= k < hd.len() ==> wf_opt_field(#[trigger] hd[k]));
    assert(forall|k: int| 0 <= k < tr.len() ==> wf_opt_field(#[trigger] tr[k]));
    assert forall|k: int| 0 <= k < al implies s.subrange(i, i + al)[k] == a[k] by {
        assert(s.subrange(i, i + ll)[k] == ser_block_fields(m)[k]);
    }
    assert(s.subrange(i, i + al) =~= a);
    lemma_parse_opt_strings_at(s, i, hd);
    let i2 = i + al;
    assert forall|k: int| 0 <= k < bl implies s.subrange(i2, i2 + bl)[k] == b[k] by {
        assert(s.subrange(i, i + ll)[al + k] == ser_block_fields(m)[al + k]);
    }
    assert(s.subrange(i2, i2 + bl) =~= b);
    lemma_parse_string_vec_at(s, i2, m.seal_fields);
    let i3 = i2 + bl;
    assert forall|k: int| 0 <= k < cl implies s.subrange(i3, i3 + cl)[k] == c[k] by {
        assert(s.subrange(i, i + ll)[al + bl + k] == ser_block_fields(m)[al + bl + k]);
    }
    assert(s.subrange(i3, i3 + cl) =~= c);
    lemma_parse_opt_strings_at(s, i3, tr);
    let i4 = i3 + cl;
    assert forall|k: int| 0 <= k < dl implies s.subrange(i4, i4 + dl)[k] == d[k] by {
        assert(s.subrange(i, i + ll)[al + bl + cl + k] == ser_block_fields(m)[al + bl + cl + k]);
    }
    assert(s.subrange(i4, i4 + dl) =~= d);
    lemma_parse_pair_vec_at(s, i4, m.transactions_and_calldata);
    match sp_block_fields(s, i) {
        Some(p) => {
            assert(p.0 =~= m);
        },
        None => {
            assert(false);
        },
    }
}

/// The serialized field list of the nested archiver record, read back whole.
#[verifier::rlimit(60)]
#[verifier::spinoff_prover]
proof fn lemma_parse_archiver_fields_at(s: Seq<u8>, i: int, m: ArchiverBlockModel)
    requires
        0 <= i,
        m.wf(),
        i + ser_archiver_fields(m).len() <= s.len(),
        s.subrange(i, i + ser_archiver_fields(m).len()) == ser_archiver_fields(m),
    ensures
        sp_archiver_fields(s, i) == Some((m, i + ser_archiver_fields(m).len())),
{
    let hd = archiver_header_fields(m);
    let tr = archiver_trailer_fields(m);
    let a = ser_opt_strings(hd);
    let b = ser_string_vec(m.seal_fields);
    let c = ser_opt_strings(tr);
    let d = ser_string_vec(m.transactions);
    let ll = ser_archiver_fields(m).len() as int;
    let (al, bl, cl, dl) = (a.len() as int, b.len() as int, c.len() as int, d.len() as int);
    assert(forall|k: int| 0 <= k < hd.len() ==> wf_opt_field(#[trigger] hd[k]));
    assert(forall|k: int| 0 <= k < tr.len() ==> wf_opt_field(#[trigger] tr[k]));
    assert forall|k: int| 0 <= k < al implies s.subrange(i, i + al)[k] == a[k] by {
        assert(s.subrange(i, i + ll)[k] == ser_archiver_fields(m)[k]);
    }
    assert(s.subrange(i, i + al) =~= a);
    lemma_parse_opt_strings_at(s, i, hd);
    let i2 = i + al;
    assert forall|k: int| 0 <= k < bl implies s.subrange(i2, i2 + bl)[k] == b[k] by {
        assert(s.subrange(i, i + ll)[al + k] == ser_archiver_fields(m)[al + k]);
    }
    assert(s.subrange(i2, i2 + bl) =~= b);
    lemma_parse_string_vec_at(s, i2, m.seal_fields);
    let i3 = i2 + bl;
    assert forall|k: int| 0 <= k < cl implies s.subrange(i3, i3 + cl)[k] == c[k] by {
        assert(s.subrange(i, i + ll)[al + bl + k] == ser_archiver_fields(m)[al + bl + k]);
    }
    assert(s.subrange(i3, i3 + cl) =~= c);
    lemma_parse_opt_strings_at(s, i3, tr);
    let i4 = i3 + cl;
    assert forall|k: int| 0 <= k < dl implies s.subrange(i4, i4 + dl)[k] == d[k] by {
        assert(s.subrange(i, i + ll)[al + bl + cl + k] == ser_archiver_fields(m)[al + bl + cl + k]);
    }
    assert(s.subrange(i4, i4 + dl) =~= d);
    lemma_parse_string_vec_at(s, i4, m.transactions);
    match sp_archiver_fields(s, i) {
        Some(p) => {
            assert(p.0 =~= m);
        },
        None => {
            assert(false);
        },
    }
}

/// Law: the codec inverts itself on archived blocks — deserializing a
/// serialized block yields the block back.
pub proof fn lemma_block_codec_round_trip(m: BlockModel)
    requires
        m.wf(),
    ensures
        sp_block(ser_block(m)) == Ok::<BlockModel, DecodeError>(m),
{
    let s = ser_block(m);
    let fl = ser_block_fields(m).len() as int;
    assert(s[0] == version_tag_v1());
    assert forall|k: int| 0 <= k < fl implies s.subrange(1, 1 + fl)[k] == ser_block_fields(m)[k] by {
        assert(s[1 + k] == (seq![version_tag_v1()] + ser_block_fields(m))[1 + k]);
    }
    assert(s.subrange(1, 1 + fl) =~= ser_block_fields(m));
    lemma_parse_block_fields_at(s, 1, m);
}

/// Law: the codec inverts itself on nested archiver records.
pub proof fn lemma_archiver_codec_round_trip(m: ArchiverBlockModel)
    requires
        m.wf(),
    ensures
        sp_archiver(ser_archiver(m)) == Ok::<ArchiverBlockModel, DecodeError>(m),
{
    let s = ser_archiver(m);
    let hd = archiver_header_fields(m);
    assert(ser_opt_strings(hd) == ser_opt_string(hd[0]) + ser_opt_strings(hd.drop_first()));
    assert(ser_opt_string(hd[0]).len() >= 1);
    assert(s.len() > 0);
    assert(s.subrange(0, s.len() as int) =~= s);
    lemma_parse_archiver_fields_at(s, 0, m);
}

} // verus!
