//! Recursive-length-prefix coding: the canonical byte-string and list
//! encodings that typed transactions are built from, with a strict decoder
//! that accepts only the canonical form.

use vstd::prelude::*;
use vstd::slice::slice_to_vec;

verus! {

/// Minimal big-endian bytes of a length: no leading zero, empty for zero.
pub open spec fn be_bytes(n: nat) -> Seq<u8>
    decreases n,
{
    if n == 0 {
        Seq::empty()
    } else {
        be_bytes(n / 256).push((n % 256) as u8)
    }
}

/// The value read back from big-endian bytes.
pub open spec fn be_val(s: Seq<u8>) -> nat
    decreases s.len(),
{
    if s.len() == 0 {
        0
    } else {
        (be_val(s.drop_last()) * 256 + s.last()) as nat
    }
}

/// 256 to the power `k`: the exclusive upper bound of `k` big-endian bytes.
pub open spec fn p256(k: nat) -> nat
    decreases k,
{
    if k == 0 {
        1
    } else {
        256 * p256((k - 1) as nat)
    }
}

/// The bound grows with the byte count.
pub proof fn lemma_p256_mono(j: nat, k: nat)
    requires
        j <= k,
    ensures
        p256(j) <= p256(k),
    decreases k,
{
    if j < k && k > 0 {
        lemma_p256_mono(j, (k - 1) as nat);
    }
}

/// The bounds of seven and eight big-endian bytes.
pub proof fn lemma_p256_vals()
    ensures
        p256(7) == 0x100_0000_0000_0000,
        p256(8) == 0x1_0000_0000_0000_0000,
{
    reveal_with_fuel(p256, 10);
}

/// A length below the bound of `k` bytes has a minimal big-endian form of
/// at most `k` bytes.
pub proof fn lemma_be_bytes_le(n: nat, k: nat)
    ensures
        n < p256(k) ==> be_bytes(n).len() <= k,
    decreases k,
{
    if k > 0 && n > 0 {
        lemma_be_bytes_le(n / 256, (k - 1) as nat);
        if n < p256(k) {
            assert(p256(k) == 256 * p256((k - 1) as nat));
            assert(n / 256 < p256((k - 1) as nat)) by (nonlinear_arith)
                requires
                    n < 256 * p256((k - 1) as nat),
            ;
        }
    }
}

/// The canonical encoding of a byte string: itself when it is one small
/// byte; a one-byte header for up to 55 bytes; else a header and the
/// big-endian byte count.
pub open spec fn rlp_enc_bytes(b: Seq<u8>) -> Seq<u8> {
    if b.len() == 1 && b[0] < 128 {
        b
    } else if b.len() <= 55 {
        seq![(128 + b.len()) as u8] + b
    } else {
        seq![(183 + be_bytes(b.len()).len()) as u8] + be_bytes(b.len()) + b
    }
}

/// The canonical encoding of a list with the given payload bytes.
pub open spec fn rlp_enc_list(payload: Seq<u8>) -> Seq<u8> {
    if payload.len() <= 55 {
        seq![(192 + payload.len()) as u8] + payload
    } else {
        seq![(247 + be_bytes(payload.len()).len()) as u8] + be_bytes(payload.len()) + payload
    }
}

/// Reads a canonical byte-string item at position `i`: rejects a one-byte
/// string hidden behind a header, a length with a leading zero, and a long
/// form used for a short length.
pub open spec fn sp_rlp_string(s: Seq<u8>, i: int) -> Option<(Seq<u8>, int)> {
    if !(0 <= i < s.len()) {
        None
    } else {
        let b = s[i];
        if b < 128 {
            Some((seq![b], i + 1))
        } else if b <= 183 {
            let n = b - 128;
            if i + 1 + n <= s.len() {
                let c = s.subrange(i + 1, i + 1 + n);
                if n == 1 && c[0] < 128 {
                    None
                } else {
                    Some((c, i + 1 + n))
                }
            } else {
                None
            }
        } else if b <= 191 {
            let ll = b - 183;
            if i + 1 + ll <= s.len() {
                let lb = s.subrange(i + 1, i + 1 + ll);
                if lb[0] == 0 {
                    None
                } else {
                    let n = be_val(lb);
                    if n <= 55 {
                        None
                    } else if i + 1 + ll + n <= s.len() {
                        Some((s.subrange(i + 1 + ll, i + 1 + ll + n), i + 1 + ll + n))
                    } else {
                        None
                    }
                }
            } else {
                None
            }
        } else {
            None
        }
    }
}

/// Reads a canonical list header at position `i`, yielding the payload byte
/// count and the position where the payload starts.
pub open spec fn sp_rlp_list_header(s: Seq<u8>, i: int) -> Option<(int, int)> {
    if !(0 <= i < s.len()) {
        None
    } else {
        let b = s[i];
        if b < 192 {
            None
        } else if b <= 247 {
            let n = b - 192;
            if i + 1 + n <= s.len() {
                Some((n as int, i + 1))
            } else {
                None
            }
        } else {
            let ll = b - 247;
            if i + 1 + ll <= s.len() {
                let lb = s.subrange(i + 1, i + 1 + ll);
                if lb[0] == 0 {
                    None
                } else {
                    let n = be_val(lb);
                    if n <= 55 {
                        None
                    } else if i + 1 + ll + n <= s.len() {
                        Some((n as int, i + 1 + ll))
                    } else {
                        None
                    }
                }
            } else {
                None
            }
        }
    }
}

/// Minimal big-endian bytes of a length, computed.
pub fn be_bytes_of(n: usize) -> (r: Vec<u8>)
    ensures
        r@ == be_bytes(n as nat),
    decreases n,
{
    if n == 0 {
        Vec::new()
    } else {
        let mut v = be_bytes_of(n / 256);
        v.push((n % 256) as u8);
        v
    }
}

/// Appends the canonical encoding of the byte string `b`.
pub fn rlp_append_bytes(out: &mut Vec<u8>, b: &Vec<u8>)
    ensures
        final(out)@ == old(out)@ + rlp_enc_bytes(b@),
{
    if b.len() == 1 && b[0] < 128 {
        out.push(b[0]);
        proof {
            assert(b@ =~= seq![b@[0]]);
            assert(final(out)@ =~= old(out)@ + rlp_enc_bytes(b@));
        }
    } else if b.len() <= 55 {
        out.push((128 + b.len()) as u8);
        out.extend_from_slice(b.as_slice());
        proof {
            assert(final(out)@ =~= old(out)@ + rlp_enc_bytes(b@));
        }
    } else {
        let lb = be_bytes_of(b.len());
        proof {
            lemma_p256_vals();
            lemma_be_bytes_le(b@.len(), 8);
        }
        out.push((183 + lb.len()) as u8);
        out.extend_from_slice(lb.as_slice());
        out.extend_from_slice(b.as_slice());
        proof {
            assert(final(out)@ =~= old(out)@ + rlp_enc_bytes(b@));
        }
    }
}

/// Appends the canonical list encoding of the given payload bytes.
pub fn rlp_append_list(out: &mut Vec<u8>, payload: &Vec<u8>)
    ensures
        final(out)@ == old(out)@ + rlp_enc_list(payload@),
{
    if payload.len() <= 55 {
        out.push((192 + payload.len()) as u8);
        out.extend_from_slice(payload.as_slice());
        proof {
            assert(final(out)@ =~= old(out)@ + rlp_enc_list(payload@));
        }
    } else {
        let lb = be_bytes_of(payload.len());
        proof {
            lemma_p256_vals();
            lemma_be_bytes_le(payload@.len(), 8);
        }
        out.push((247 + lb.len()) as u8);
        out.extend_from_slice(lb.as_slice());
        out.extend_from_slice(payload.as_slice());
        proof {
            assert(final(out)@ =~= old(out)@ + rlp_enc_list(payload@));
        }
    }
}

/// Reads the big-endian value of `ll` bytes at position `j`; `ll` is at most
/// eight, so the value fits in 64 bits.
#[verifier::loop_isolation(false)]
fn read_be(s: &Vec<u8>, j: usize, ll: usize) -> (r: u64)
    requires
        j + ll <= s@.len(),
        1 <= ll <= 8,
    ensures
        r as nat == be_val(s@.subrange(j as int, j as int + ll as int)),
{
    let _len_fits: usize = s.len();
    let mut n: u64 = 0;
    let mut k: usize = 0;
    proof {
        assert(s@.subrange(j as int, j as int) =~= Seq::<u8>::empty());
    }
    while k < ll
        invariant
            k <= ll,
            n as nat == be_val(s@.subrange(j as int, j as int + k as int)),
            n < p256(k as nat),
        decreases ll - k,
    {
        proof {
            assert(s@.subrange(j as int, j as int + k as int + 1).drop_last()
                =~= s@.subrange(j as int, j as int + k as int));
            lemma_p256_vals();
            lemma_p256_mono(k as nat, 7);
            assert(p256(k as nat + 1) == 256 * p256(k as nat));
        }
        n = n * 256 + (s[j + k] as u64);
        k = k + 1;
    }
    n
}

/// Reads a canonical byte-string item at position `i`.
pub fn p_rlp_string(s: &Vec<u8>, i: usize) -> (r: Option<(Vec<u8>, usize)>)
    requires
        i <= s@.len(),
    ensures
        r matches Some(p) ==> sp_rlp_string(s@, i as int) == Some((p.0@, p.1 as int))
            && i < p.1 <= s@.len(),
        r is None ==> sp_rlp_string(s@, i as int) is None,
{
    if i >= s.len() {
        return None;
    }
    let b = s[i];
    if b < 128 {
        let mut v: Vec<u8> = Vec::new();
        v.push(b);
        proof {
            assert(v@ =~= seq![s@[i as int]]);
        }
        Some((v, i + 1))
    } else if b <= 183 {
        let n = (b - 128) as usize;
        if n <= s.len() - (i + 1) {
            let c = slice_to_vec(&s.as_slice()[i + 1..i + 1 + n]);
            if n == 1 && c[0] < 128 {
                None
            } else {
                Some((c, i + 1 + n))
            }
        } else {
            None
        }
    } else if b <= 191 {
        let ll = (b - 183) as usize;
        if ll <= s.len() - (i + 1) {
            if s[i + 1] == 0 {
                return None;
            }
            let n64 = read_be(s, i + 1, ll);
            if n64 <= 55 {
                return None;
            }
            let remaining = s.len() - (i + 1 + ll);
            if n64 <= remaining as u64 {
                let n = n64 as usize;
                let c = slice_to_vec(&s.as_slice()[i + 1 + ll..i + 1 + ll + n]);
                Some((c, i + 1 + ll + n))
            } else {
                None
            }
        } else {
            None
        }
    } else {
        None
    }
}

/// Reads a canonical list header at position `i`.
pub fn p_rlp_list_header(s: &Vec<u8>, i: usize) -> (r: Option<(usize, usize)>)
    requires
        i <= s@.len(),
    ensures
        r matches Some(p) ==> sp_rlp_list_header(s@, i as int) == Some((p.0 as int, p.1 as int))
            && i < p.1 <= s@.len(),
        r is None ==> sp_rlp_list_header(s@, i as int) is None,
{
    if i >= s.len() {
        return None;
    }
    let b = s[i];
    if b < 192 {
        None
    } else if b <= 247 {
        let n = (b - 192) as usize;
        if n <= s.len() - (i + 1) {
            Some((n, i + 1))
        } else {
            None
        }
    } else {
        let ll = (b - 247) as usize;
        if ll <= s.len() - (i + 1) {
            if s[i + 1] == 0 {
                return None;
            }
            let n64 = read_be(s, i + 1, ll);
            if n64 <= 55 {
                return None;
            }
            let remaining = s.len() - (i + 1 + ll);
            if n64 <= remaining as u64 {
                Some((n64 as usize, i + 1 + ll))
            } else {
                None
            }
        } else {
            None
        }
    }
}

/// Big-endian bytes of a length read back as that length.
pub proof fn lemma_be_round_trip(n: nat)
    ensures
        be_val(be_bytes(n)) == n,
    decreases n,
{
    if n > 0 {
        lemma_be_round_trip(n / 256);
        assert(be_bytes(n).drop_last() =~= be_bytes(n / 256));
        vstd::arithmetic::div_mod::lemma_fundamental_div_mod(n as int, 256);
    }
}

/// The minimal big-endian form of a positive length never starts with zero.
pub proof fn lemma_be_bytes_minimal(n: nat)
    ensures
        n > 0 ==> be_bytes(n).len() >= 1 && be_bytes(n)[0] != 0,
    decreases n,
{
    if n > 0 {
        lemma_be_bytes_minimal(n / 256);
        if n / 256 == 0 {
            vstd::arithmetic::div_mod::lemma_fundamental_div_mod(n as int, 256);
            assert(be_bytes(n / 256) =~= Seq::<u8>::empty());
            assert(be_bytes(n)[0] == (n % 256) as u8);
        } else {
            assert(be_bytes(n)[0] == be_bytes(n / 256)[0]);
        }
    }
}

/// The encoding of a byte string adds at most nine bytes of header.
pub proof fn lemma_rlp_enc_bytes_len(b: Seq<u8>)
    requires
        b.len() < 0x1_0000_0000_0000_0000,
    ensures
        rlp_enc_bytes(b).len() <= b.len() + 9,
        rlp_enc_bytes(b).len() >= 1,
{
    if !(b.len() == 1 && b[0] < 128) && b.len() > 55 {
        lemma_p256_vals();
        lemma_be_bytes_le(b.len(), 8);
    }
}

/// A canonically encoded byte string written at position `i` is read back at
/// position `i`.
pub proof fn lemma_parse_rlp_bytes_at(s: Seq<u8>, i: int, b: Seq<u8>)
    requires
        0 <= i,
        b.len() < 0x1_0000_0000_0000_0000,
        i + rlp_enc_bytes(b).len() <= s.len(),
        s.subrange(i, i + rlp_enc_bytes(b).len()) == rlp_enc_bytes(b),
    ensures
        sp_rlp_string(s, i) == Some((b, i + rlp_enc_bytes(b).len())),
{
    let e = rlp_enc_bytes(b);
    let ll = e.len() as int;
    let bl = b.len() as int;
    if b.len() == 1 && b[0] < 128 {
        assert(s.subrange(i, i + ll)[0] == e[0]);
        assert(s[i] == b[0]);
        assert(seq![s[i]] =~= b);
    } else if b.len() <= 55 {
        assert(s.subrange(i, i + ll)[0] == e[0]);
        assert(s[i] == (128 + bl) as u8);
        assert forall|k: int| 0 <= k < bl implies s.subrange(i + 1, i + 1 + bl)[k] == b[k] by {
            assert(s.subrange(i, i + ll)[1 + k] == e[1 + k]);
        }
        assert(s.subrange(i + 1, i + 1 + bl) =~= b);
    } else {
        let lb = be_bytes(b.len());
        let lbl = lb.len() as int;
        lemma_p256_vals();
        lemma_be_bytes_le(b.len(), 8);
        lemma_be_bytes_minimal(b.len());
        lemma_be_round_trip(b.len());
        assert(s.subrange(i, i + ll)[0] == e[0]);
        assert(s[i] == (183 + lbl) as u8);
        assert forall|k: int| 0 <= k < lbl implies s.subrange(i + 1, i + 1 + lbl)[k] == lb[k] by {
            assert(s.subrange(i, i + ll)[1 + k] == e[1 + k]);
        }
        assert(s.subrange(i + 1, i + 1 + lbl) =~= lb);
        assert forall|k: int| 0 <= k < bl implies s.subrange(i + 1 + lbl, i + 1 + lbl + bl)[k]
            == b[k] by {
            assert(s.subrange(i, i + ll)[1 + lbl + k] == e[1 + lbl + k]);
        }
        assert(s.subrange(i + 1 + lbl, i + 1 + lbl + bl) =~= b);
    }
}

/// A canonical list header written at position `i` is read back at position
/// `i`, provided the whole list payload is in the buffer.
pub proof fn lemma_parse_rlp_list_header_at(s: Seq<u8>, i: int, p: Seq<u8>)
    requires
        0 <= i,
        p.len() < 0x1_0000_0000_0000_0000,
        i + rlp_enc_list(p).len() <= s.len(),
        s.subrange(i, i + rlp_enc_list(p).len()) == rlp_enc_list(p),
    ensures
        sp_rlp_list_header(s, i) == Some((
            p.len() as int,
            i + rlp_enc_list(p).len() - p.len(),
        )),
{
    let e = rlp_enc_list(p);
    let ll = e.len() as int;
    let pl = p.len() as int;
    if p.len() <= 55 {
        assert(s.subrange(i, i + ll)[0] == e[0]);
        assert(s[i] == (192 + pl) as u8);
    } else {
        let lb = be_bytes(p.len());
        let lbl = lb.len() as int;
        lemma_p256_vals();
        lemma_be_bytes_le(p.len(), 8);
        lemma_be_bytes_minimal(p.len());
        lemma_be_round_trip(p.len());
        assert(s.subrange(i, i + ll)[0] == e[0]);
        assert(s[i] == (247 + lbl) as u8);
        assert forall|k: int| 0 <= k < lbl implies s.subrange(i + 1, i + 1 + lbl)[k] == lb[k] by {
            assert(s.subrange(i, i + ll)[1 + k] == e[1 + k]);
        }
        assert(s.subrange(i + 1, i + 1 + lbl) =~= lb);
    }
}

} // verus!
