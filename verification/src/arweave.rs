//! Archive fetcher & matcher: decodes fetched archive bytes and scans the
//! decoded block for the target transaction, matching hashes after trimming
//! whitespace and lowering ASCII case; and the archive locator's
//! record-selection rules.

use vstd::prelude::*;
use vstd::utf8::encode_utf8;
use crate::codec::{sp_block, brotli_inflate_of};
use crate::schemas::{Block, EncodingUtils};

verus! {

/// ASCII whitespace, as it appears around hand-entered transaction hashes.
pub open spec fn is_ws(b: u8) -> bool {
    b == 32 || b == 9 || b == 10 || b == 13
}

/// ASCII upper-case letters fold to lower case; every other byte is kept.
pub open spec fn lower_byte(b: u8) -> u8 {
    if 65 <= b <= 90 {
        (b + 32) as u8
    } else {
        b
    }
}

/// The bytes with leading whitespace removed.
pub open spec fn trim_front(s: Seq<u8>) -> Seq<u8>
    decreases s.len(),
{
    if s.len() > 0 && is_ws(s[0]) {
        trim_front(s.drop_first())
    } else {
        s
    }
}

/// The bytes with trailing whitespace removed.
pub open spec fn trim_back(s: Seq<u8>) -> Seq<u8>
    decreases s.len(),
{
    if s.len() > 0 && is_ws(s.last()) {
        trim_back(s.drop_last())
    } else {
        s
    }
}

/// The normal form under which hashes are compared: whitespace trimmed from
/// both ends, ASCII letters lowered.
pub open spec fn norm_bytes(s: Seq<u8>) -> Seq<u8> {
    trim_back(trim_front(s)).map_values(|b: u8| lower_byte(b))
}

/// Two hash strings match when their byte encodings normalize alike.
pub open spec fn hash_matches(a: Seq<char>, b: Seq<char>) -> bool {
    norm_bytes(encode_utf8(a)) == norm_bytes(encode_utf8(b))
}

/// Law: matching is case-insensitive — lowering ASCII case anywhere in a
/// hash does not change its normal form.
pub proof fn lemma_match_case_insensitive(s: Seq<u8>)
    ensures
        norm_bytes(s.map_values(|b: u8| lower_byte(b))) == norm_bytes(s),
    decreases s.len(),
{
    let low = s.map_values(|b: u8| lower_byte(b));
    lemma_trim_front_lower(s);
    lemma_trim_back_lower(trim_front(s));
    assert(trim_back(trim_front(low))
        =~= trim_back(trim_front(s)).map_values(|b: u8| lower_byte(b)));
    let t = trim_back(trim_front(s));
    assert(t.map_values(|b: u8| lower_byte(b)).map_values(|b: u8| lower_byte(b))
        =~= t.map_values(|b: u8| lower_byte(b)));
}

/// Lowering case commutes with trimming leading whitespace.
proof fn lemma_trim_front_lower(s: Seq<u8>)
    ensures
        trim_front(s.map_values(|b: u8| lower_byte(b)))
            == trim_front(s).map_values(|b: u8| lower_byte(b)),
    decreases s.len(),
{
    let low = s.map_values(|b: u8| lower_byte(b));
    if s.len() > 0 && is_ws(s[0]) {
        lemma_trim_front_lower(s.drop_first());
        assert(low.drop_first() =~= s.drop_first().map_values(|b: u8| lower_byte(b)));
    } else {
    }
}

/// Lowering case commutes with trimming trailing whitespace.
proof fn lemma_trim_back_lower(s: Seq<u8>)
    ensures
        trim_back(s.map_values(|b: u8| lower_byte(b)))
            == trim_back(s).map_values(|b: u8| lower_byte(b)),
    decreases s.len(),
{
    let low = s.map_values(|b: u8| lower_byte(b));
    if s.len() > 0 && is_ws(s.last()) {
        lemma_trim_back_lower(s.drop_last());
        assert(low.drop_last() =~= s.drop_last().map_values(|b: u8| lower_byte(b)));
    } else {
    }
}

/// Law: matching is whitespace-tolerant — whitespace added before or after a
/// hash does not change its normal form.
pub proof fn lemma_match_whitespace_tolerant(s: Seq<u8>, w: u8)
    requires
        is_ws(w),
    ensures
        norm_bytes(seq![w] + s) == norm_bytes(s),
        norm_bytes(s.push(w)) == norm_bytes(s),
{
    assert((seq![w] + s).drop_first() =~= s);
    lemma_trim_front_push_ws(s, w);
}

/// Trimming absorbs one trailing whitespace byte.
proof fn lemma_trim_front_push_ws(s: Seq<u8>, w: u8)
    requires
        is_ws(w),
    ensures
        trim_back(trim_front(s.push(w))) == trim_back(trim_front(s)),
    decreases s.len(),
{
    if s.len() == 0 {
        assert(s.push(w).drop_first() =~= s);
    } else if is_ws(s[0]) {
        assert(s.push(w).drop_first() =~= s.drop_first().push(w));
        lemma_trim_front_push_ws(s.drop_first(), w);
    } else {
        assert(trim_front(s.push(w)) == s.push(w));
        assert(trim_front(s) == s);
        assert(s.push(w).drop_last() =~= s);
    }
}

/// First-match scan of the decoded block's pairs: the calldata paired with
/// the first hash whose normal form equals the target's.
pub open spec fn scan_pairs(pairs: Seq<(Seq<char>, Seq<char>)>, target: Seq<char>) -> Option<
    Seq<char>,
>
    decreases pairs.len(),
{
    if pairs.len() == 0 {
        None
    } else if hash_matches(pairs[0].0, target) {
        Some(pairs[0].1)
    } else {
        scan_pairs(pairs.drop_first(), target)
    }
}

/// The sentinel payload for "no archive data".
pub open spec fn no_data_payload() -> Seq<char> {
    "0x"@
}

/// The hard-failure message for a block that decodes but does not contain
/// the target transaction.
pub open spec fn not_found_message() -> Seq<char> {
    "Error retrieving calldata from Arweave"@
}

/// What the fetch/match path yields for decompressed archive bytes `un` and
/// target hash `target`: the sentinel when the archive had no data or its
/// bytes do not decode, the matched calldata when the target is found, and
/// the hard error when the block decodes but lacks the target.
pub open spec fn fetch_match_spec(un: Seq<u8>, target: Seq<char>) -> Result<Seq<char>, Seq<char>> {
    if un.len() == 0 {
        Ok(no_data_payload())
    } else {
        match sp_block(un) {
            Err(_) => Ok(no_data_payload()),
            Ok(m) => match scan_pairs(m.transactions_and_calldata, target) {
                Some(calldata) => Ok(calldata),
                None => Err(not_found_message()),
            },
        }
    }
}

/// Trims whitespace from both ends and lowers ASCII case, yielding the
/// normal form of a hash string.
pub fn normalize_hash(s: &String) -> (r: Vec<u8>)
    ensures
        r@ == norm_bytes(encode_utf8(s@)),
{
    let bs = s.as_str().as_bytes();
    let n = bs.len();
    let mut start: usize = 0;
    proof {
        assert(bs@.skip(0) =~= bs@);
    }
    while start < n && (bs[start] == 32 || bs[start] == 9 || bs[start] == 10 || bs[start] == 13)
        invariant
            n == bs@.len(),
            start <= n,
            trim_front(bs@) == trim_front(bs@.skip(start as int)),
        decreases n - start,
    {
        proof {
            assert(bs@.skip(start as int).drop_first() =~= bs@.skip(start as int + 1));
        }
        start = start + 1;
    }
    proof {
        assert(trim_front(bs@.skip(start as int)) == bs@.skip(start as int));
    }
    let mut end: usize = n;
    while end > start && (bs[end - 1] == 32 || bs[end - 1] == 9 || bs[end - 1] == 10 || bs[end - 1]
        == 13)
        invariant
            n == bs@.len(),
            start <= end <= n,
            trim_front(bs@) == bs@.skip(start as int),
            trim_back(bs@.skip(start as int)) == trim_back(bs@.subrange(start as int, end as int)),
        decreases end,
    {
        proof {
            assert(bs@.subrange(start as int, end as int).drop_last()
                =~= bs@.subrange(start as int, end as int - 1));
        }
        end = end - 1;
    }
    proof {
        assert(trim_back(bs@.subrange(start as int, end as int))
            == bs@.subrange(start as int, end as int));
    }
    let mut out: Vec<u8> = Vec::new();
    let mut i: usize = start;
    while i < end
        invariant
            n == bs@.len(),
            start <= i <= end <= n,
            out@ =~= bs@.subrange(start as int, i as int).map_values(|b: u8| lower_byte(b)),
        decreases end - i,
    {
        let b = bs[i];
        let lb: u8 = if 65 <= b && b <= 90 {
            b + 32
        } else {
            b
        };
        out.push(lb);
        proof {
            assert(bs@.subrange(start as int, i as int + 1)
                =~= bs@.subrange(start as int, i as int).push(b));
            assert(bs@.subrange(start as int, i as int + 1).map_values(|x: u8| lower_byte(x))
                =~= bs@.subrange(start as int, i as int).map_values(|x: u8| lower_byte(x)).push(
                lower_byte(b)));
        }
        i = i + 1;
    }
    proof {
        assert(norm_bytes(bs@) == out@);
    }
    out
}

/// True iff the two hash strings are equal up to surrounding whitespace and
/// ASCII case.
#[verifier::loop_isolation(false)]
pub fn hashes_equal(a: &String, b: &String) -> (r: bool)
    ensures
        r == hash_matches(a@, b@),
{
    let na = normalize_hash(a);
    let nb = normalize_hash(b);
    if na.len() != nb.len() {
        proof {
            assert(na@ != nb@);
        }
        return false;
    }
    let mut i: usize = 0;
    while i < na.len()
        invariant
            na@.len() == nb@.len(),
            i <= na@.len(),
            forall|k: int| 0 <= k < i ==> na@[k] == nb@[k],
        decreases na@.len() - i,
    {
        if na[i] != nb[i] {
            proof {
                assert(na@ != nb@);
            }
            return false;
        }
        i = i + 1;
    }
    proof {
        assert(na@ =~= nb@);
    }
    true
}

/// Scans the decoded block's transaction/calldata pairs for the first hash
/// matching the target, case-insensitively and whitespace-tolerantly.
#[verifier::loop_isolation(false)]
pub fn find_tx_calldata(block: &Block, target: &String) -> (r: Option<String>)
    ensures
        match r {
            Some(calldata) => scan_pairs(block@.transactions_and_calldata, target@)
                == Some(calldata@),
            None => scan_pairs(block@.transactions_and_calldata, target@) is None,
        },
{
    let pairs = &block.transactions_and_calldata;
    let ghost ps = block@.transactions_and_calldata;
    let mut i: usize = 0;
    proof {
        assert(ps.skip(0) =~= ps);
    }
    while i < pairs.len()
        invariant
            ps == crate::schemas::pairs_view(pairs@),
            i <= pairs@.len(),
            scan_pairs(ps, target@) == scan_pairs(ps.skip(i as int), target@),
        decreases pairs@.len() - i,
    {
        let matched = hashes_equal(&pairs[i].0, target);
        proof {
            assert(ps[i as int] == (pairs@[i as int].0@, pairs@[i as int].1@));
            assert(ps.skip(i as int)[0] == ps[i as int]);
        }
        if matched {
            proof {
                assert(scan_pairs(ps.skip(i as int), target@) == Some(ps[i as int].1));
            }
            return Some(pairs[i].1.clone());
        }
        proof {
            assert(ps.skip(i as int).drop_first() =~= ps.skip(i as int + 1));
        }
        i = i + 1;
    }
    proof {
        assert(ps.skip(pairs@.len() as int) =~= Seq::<(Seq<char>, Seq<char>)>::empty());
    }
    None
}

/// The fetch/match step on bytes already fetched from the archive gateway:
/// decompresses them, decodes the block, and scans it for the target
/// transaction. Missing or undecodable archive data yields the sentinel
/// `"0x"`; a decoded block without the target yields the hard error.
pub fn get_tx_calldata_from_arweave(data: Vec<u8>, wvm_txid: String) -> (r: Result<String, String>)
    ensures
        match r {
            Ok(v) => fetch_match_spec(brotli_inflate_of(data@), wvm_txid@) == Ok::<
                Seq<char>,
                Seq<char>,
            >(v@),
            Err(e) => fetch_match_spec(brotli_inflate_of(data@), wvm_txid@) == Err::<
                Seq<char>,
                Seq<char>,
            >(e@),
        },
{
    let unbrotli = match EncodingUtils::brotli_decompress(data) {
        Ok(v) => v,
        Err(_) => Vec::new(),
    };
    if unbrotli.len() == 0 {
        return Ok("0x".to_owned());
    }
    let block = match EncodingUtils::borsh_deserialize(unbrotli) {
        Ok(b) => b,
        Err(_) => {
            return Ok("0x".to_owned());
        },
    };
    match find_tx_calldata(&block, &wvm_txid) {
        Some(calldata) => Ok(calldata),
        None => Err("Error retrieving calldata from Arweave".to_owned()),
    }
}

} // verus!
