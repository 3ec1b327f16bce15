//! Byte-level codec for the wire layouts this library negotiates.
//!
//! The registries spoken to encode requests and replies in a small, fixed
//! family of layouts: a magic header, a type table describing one argument,
//! then the argument value built from unsigned LEB128 quantities,
//! little-endian fixed-width integers, and length-prefixed byte strings.
//! Each layout accepted or produced here is pinned down exactly by a spec
//! function over byte sequences; the executable encoders and parsers are
//! proved against those.

use vstd::arithmetic::power2::{lemma2_to64, lemma2_to64_rest, lemma_pow2_adds, lemma_pow2_strictly_increases, pow2};
use vstd::prelude::*;

verus! {

/// Minimal unsigned LEB128 encoding of `n`.
pub open spec fn uleb(n: nat) -> Seq<u8>
    decreases n,
{
    if n < 0x80 {
        seq![n as u8]
    } else {
        seq![((n % 0x80) + 0x80) as u8] + uleb(n / 0x80)
    }
}

/// One pass over an unsigned LEB128 quantity starting at `i`: accumulates the
/// value (exactly, as a `nat`) and reports the position one past its last
/// byte.  Fails only when the sequence ends before a terminating byte.
pub open spec fn parse_uleb_rec(s: Seq<u8>, i: int, shift: nat, acc: nat) -> Option<(nat, int)>
    decreases s.len() - i,
{
    if i < 0 || i >= s.len() {
        None
    } else {
        let low = (s[i] % 0x80) as nat;
        let acc2 = acc + low * pow2(shift);
        if s[i] < 0x80 {
            Some((acc2, i + 1))
        } else {
            parse_uleb_rec(s, i + 1, (shift + 7) as nat, acc2)
        }
    }
}

/// An unsigned LEB128 quantity at `i`; the value is `None` when it does not
/// fit in a `u64` (the widest count this library works with).
pub open spec fn parse_nat(s: Seq<u8>, i: int) -> Option<(Option<u64>, int)> {
    match parse_uleb_rec(s, i, 0, 0) {
        Some((v, j)) => Some(
            (
                if v <= u64::MAX {
                    Some(v as u64)
                } else {
                    None
                },
                j,
            ),
        ),
        None => None,
    }
}

/// An unsigned LEB128 quantity at `i` that must fit in a `u64`.
pub open spec fn parse_uleb64(s: Seq<u8>, i: int) -> Option<(u64, int)> {
    match parse_nat(s, i) {
        Some((Some(v), j)) => Some((v, j)),
        _ => None,
    }
}

/// The accumulated value only grows, and the end position stays in bounds.
pub proof fn lemma_parse_uleb_ge(s: Seq<u8>, i: int, shift: nat, acc: nat)
    ensures
        parse_uleb_rec(s, i, shift, acc) matches Some((v, j)) ==> v >= acc && i < j <= s.len(),
    decreases s.len() - i,
{
    if 0 <= i < s.len() {
        let low = (s[i] % 0x80) as nat;
        let acc2 = acc + low * pow2(shift);
        vstd::arithmetic::power2::lemma_pow2_pos(shift);
        if s[i] >= 0x80 {
            lemma_parse_uleb_ge(s, i + 1, (shift + 7) as nat, acc2);
        }
    }
}

/// Reads an unsigned LEB128 quantity starting at `start`; returns the value
/// (or `None` when it exceeds `u64::MAX`) and the position after it.
pub fn parse_nat_at(s: &Vec<u8>, start: usize) -> (r: Option<(Option<u64>, usize)>)
    ensures
        match r {
            Some((v, j)) => parse_nat(s@, start as int) == Some((v, j as int)),
            None => parse_nat(s@, start as int) is None,
        },
{
    let n = s.len();
    let mut i: usize = start;
    let mut acc: u64 = 0;
    let mut fits: bool = true;
    let mut mult: u64 = 1;
    let mut big: bool = false;
    let ghost mut shift: nat = 0;
    let ghost mut acc_g: nat = 0;
    proof {
        lemma2_to64();
    }
    loop
        invariant
            n == s@.len(),
            start <= i,
            parse_uleb_rec(s@, start as int, 0, 0) == parse_uleb_rec(s@, i as int, shift, acc_g),
            fits ==> acc_g == acc && acc_g <= u64::MAX,
            !fits ==> acc_g > u64::MAX,
            big <==> shift >= 64,
            !big ==> mult == pow2(shift) && shift <= 63,
        decreases n - i,
    {
        proof {
            lemma2_to64();
            lemma2_to64_rest();
        }
        if i >= n {
            assert(parse_uleb_rec(s@, i as int, shift, acc_g) is None);
            return None;
        }
        let b = s[i];
        let low = b & 0x7f;
        assert((b & 0x7f) == b % 0x80 && (b & 0x7f) < 0x80 && (b < 0x80 ==> (b & 0x7f) == b)
            && (b >= 0x80 ==> b != (b & 0x7f))) by (bit_vector);
        let ghost add: nat = (low as nat) * pow2(shift);
        let ghost acc_g2: nat = acc_g + add;
        if big {
            if low != 0 {
                proof {
                    lemma2_to64_rest();
                    if shift > 64 {
                        lemma_pow2_strictly_increases(64, shift);
                    }
                    assert(pow2(shift) >= 0x1_0000_0000_0000_0000);
                    assert(add >= pow2(shift)) by (nonlinear_arith)
                        requires low >= 1, add == (low as nat) * pow2(shift);
                }
                fits = false;
            } else {
                assert(add == 0) by (nonlinear_arith)
                    requires low == 0, add == (low as nat) * pow2(shift);
            }
        } else {
            proof {
                lemma2_to64_rest();
                if shift < 63 {
                    lemma_pow2_strictly_increases(shift, 63);
                }
                assert(mult <= 0x8000_0000_0000_0000);
                assert((low as int) * (mult as int) <= 0x7f * 0x8000_0000_0000_0000) by (nonlinear_arith)
                    requires low <= 0x7f, 0 <= mult <= 0x8000_0000_0000_0000;
            }
            let prod: u128 = (low as u128) * (mult as u128);
            assert(prod == add);
            if fits {
                let total: u128 = (acc as u128) + prod;
                if total > 0xffff_ffff_ffff_ffffu128 {
                    fits = false;
                } else {
                    acc = total as u64;
                }
            }
        }
        proof {
            acc_g = acc_g2;
        }
        if b < 0x80 {
            assert(parse_uleb_rec(s@, i as int, shift, (acc_g2 - add) as nat) == Some((acc_g2, i + 1)));
            if fits {
                return Some((Some(acc), i + 1));
            } else {
                return Some((None, i + 1));
            }
        }
        assert(parse_uleb_rec(s@, i as int, shift, (acc_g2 - add) as nat) == parse_uleb_rec(
            s@,
            i + 1,
            (shift + 7) as nat,
            acc_g2,
        ));
        proof {
            shift = (shift + 7) as nat;
        }
        if !big {
            if mult > 0x0100_0000_0000_0000u64 {
                // the multiplier has passed pow2(56), so the next shift
                // reaches at least 64 bits
                big = true;
                proof {
                    lemma2_to64_rest();
                    if shift - 7 < 56 {
                        lemma_pow2_strictly_increases((shift - 7) as nat, 56);
                    }
                    assert(shift - 7 >= 57);
                }
            } else {
                proof {
                    lemma_pow2_adds((shift - 7) as nat, 7);
                    lemma2_to64_rest();
                    if shift - 7 > 56 {
                        lemma_pow2_strictly_increases(56, (shift - 7) as nat);
                    }
                    assert(shift <= 63);
                }
                mult = mult * 128;
            }
        }
        i = i + 1;
    }
}

/// Reads an unsigned LEB128 quantity that must fit in a `u64`.
pub fn parse_uleb64_at(s: &Vec<u8>, start: usize) -> (r: Option<(u64, usize)>)
    ensures
        match r {
            Some((v, j)) => parse_uleb64(s@, start as int) == Some((v, j as int)),
            None => parse_uleb64(s@, start as int) is None,
        },
{
    match parse_nat_at(s, start) {
        Some((Some(v), j)) => Some((v, j)),
        _ => None,
    }
}

/// Appends the minimal LEB128 encoding of `n` to `out`.
pub fn push_uleb(out: &mut Vec<u8>, n: u64)
    ensures
        final(out)@ == old(out)@ + uleb(n as nat),
{
    let mut cur: u64 = n;
    while cur >= 0x80
        invariant
            old(out)@ + uleb(n as nat) == out@ + uleb(cur as nat),
        decreases cur,
    {
        let byte: u64 = (cur % 0x80) + 0x80;
        out.push(byte as u8);
        assert(uleb(cur as nat) == seq![(((cur as nat) % 0x80) + 0x80) as u8] + uleb(
            (cur as nat) / 0x80,
        ));
        assert(out@.drop_last() + uleb(cur as nat) =~= out@ + uleb((cur as nat) / 0x80));
        cur = cur / 0x80;
    }
    out.push(cur as u8);
    assert(uleb(cur as nat) =~= seq![cur as u8]);
    assert(out@ =~= out@.drop_last() + uleb(cur as nat));
}

/// A length-prefixed byte string at `i`.
pub open spec fn parse_text(s: Seq<u8>, i: int) -> Option<(Seq<u8>, int)> {
    match parse_uleb64(s, i) {
        Some((n, j)) => if j + n <= s.len() {
            Some((s.subrange(j, j + n), j + n))
        } else {
            None
        },
        None => None,
    }
}

/// An optional value at `i`: a `0x00` byte, or `0x01` followed by a byte string.
pub open spec fn parse_opt_text(s: Seq<u8>, i: int) -> Option<(Option<Seq<u8>>, int)> {
    if i < 0 || i >= s.len() {
        None
    } else if s[i] == 0x00 {
        Some((None, i + 1))
    } else if s[i] == 0x01 {
        match parse_text(s, i + 1) {
            Some((t, j)) => Some((Some(t), j)),
            None => None,
        }
    } else {
        None
    }
}

/// A count followed by that many 64-bit little-endian values.
pub open spec fn parse_vec_nat64(s: Seq<u8>, i: int) -> Option<(Seq<u64>, int)> {
    match parse_uleb64(s, i) {
        Some((n, j)) => if j + 8 * n <= s.len() {
            Some(
                (
                    Seq::new(
                        n as nat,
                        |k: int|
                            vstd::bytes::spec_u64_from_le_bytes(
                                s.subrange(j + 8 * k, j + 8 * k + 8),
                            ),
                    ),
                    j + 8 * n,
                ),
            )
        } else {
            None
        },
        None => None,
    }
}

/// One registry entry: a 32-bit little-endian index and an owner byte string.
pub open spec fn parse_pair(s: Seq<u8>, i: int) -> Option<((u32, Seq<u8>), int)> {
    if i < 0 || i + 4 > s.len() {
        None
    } else {
        let idx = vstd::bytes::spec_u32_from_le_bytes(s.subrange(i, i + 4));
        match parse_text(s, i + 4) {
            Some((t, j)) => Some(((idx, t), j)),
            None => None,
        }
    }
}

/// `n` registry entries in a row starting at `i`.
pub open spec fn parse_pairs(s: Seq<u8>, i: int, n: nat) -> Option<(Seq<(u32, Seq<u8>)>, int)>
    decreases n,
{
    if n == 0 {
        Some((Seq::empty(), i))
    } else {
        match parse_pair(s, i) {
            Some((p, j)) => match parse_pairs(s, j, (n - 1) as nat) {
                Some((rest, e)) => Some((seq![p] + rest, e)),
                None => None,
            },
            None => None,
        }
    }
}

/// True when `p` is a prefix of `s`.
pub open spec fn has_prefix_spec(s: Seq<u8>, p: Seq<u8>) -> bool {
    p.len() <= s.len() && s.take(p.len() as int) == p
}

/// Prefix check, executable form.
pub fn has_prefix(s: &Vec<u8>, p: &Vec<u8>) -> (r: bool)
    ensures
        r == has_prefix_spec(s@, p@),
{
    let pn = p.len();
    if pn > s.len() {
        return false;
    }
    let mut i: usize = 0;
    while i < pn
        invariant
            pn == p@.len() <= s@.len(),
            0 <= i <= pn,
            forall|k: int| 0 <= k < i ==> s@[k] == p@[k],
        decreases pn - i,
    {
        if s[i] != p[i] {
            assert(s@.take(pn as int)[i as int] != p@[i as int]);
            return false;
        }
        i = i + 1;
    }
    assert(s@.take(pn as int) =~= p@);
    true
}


/// Reads a length-prefixed byte string.
pub fn parse_text_at(s: &Vec<u8>, start: usize) -> (r: Option<(Vec<u8>, usize)>)
    ensures
        match r {
            Some((t, j)) => parse_text(s@, start as int) == Some((t@, j as int)),
            None => parse_text(s@, start as int) is None,
        },
{
    match parse_uleb64_at(s, start) {
        Some((n, j)) => {
            proof {
                lemma_parse_uleb_ge(s@, start as int, 0, 0);
            }
            let rem = s.len() - j;
            if n > rem as u64 {
                None
            } else {
                let nn = n as usize;
                let t = vstd::slice::slice_to_vec(vstd::slice::slice_subrange(
                    s.as_slice(),
                    j,
                    j + nn,
                ));
                Some((t, j + nn))
            }
        },
        None => None,
    }
}

/// Reads an optional length-prefixed byte string.
pub fn parse_opt_text_at(s: &Vec<u8>, start: usize) -> (r: Option<(Option<Vec<u8>>, usize)>)
    ensures
        match r {
            Some((t, j)) => {
                &&& parse_opt_text(s@, start as int) matches Some((ts, js))
                &&& js == j
                &&& match t {
                    Some(tv) => ts == Some(tv@),
                    None => ts is None,
                }
            },
            None => parse_opt_text(s@, start as int) is None,
        },
{
    if start >= s.len() {
        return None;
    }
    let b = s[start];
    if b == 0x00 {
        Some((None, start + 1))
    } else if b == 0x01 {
        match parse_text_at(s, start + 1) {
            Some((t, j)) => Some((Some(t), j)),
            None => None,
        }
    } else {
        None
    }
}

/// Reads a count followed by that many 64-bit little-endian values.
pub fn parse_vec_nat64_at(s: &Vec<u8>, start: usize) -> (r: Option<(Vec<u64>, usize)>)
    ensures
        match r {
            Some((v, j)) => parse_vec_nat64(s@, start as int) == Some((v@, j as int)),
            None => parse_vec_nat64(s@, start as int) is None,
        },
{
    match parse_uleb64_at(s, start) {
        Some((n, j)) => {
            proof {
                lemma_parse_uleb_ge(s@, start as int, 0, 0);
            }
            let rem = s.len() - j;
            if n > (rem as u64) / 8 {
                assert(j + 8 * n > s@.len());
                return None;
            }
            let nn = n as usize;
            assert(j + 8 * nn <= s@.len());
            let ghost expect: Seq<u64> = Seq::new(
                n as nat,
                |k: int|
                    vstd::bytes::spec_u64_from_le_bytes(
                        s@.subrange(j + 8 * k, j + 8 * k + 8),
                    ),
            );
            let mut out: Vec<u64> = Vec::new();
            let mut k: usize = 0;
            while k < nn
                invariant
                    nn <= usize::MAX,
                    j + 8 * nn <= s@.len() <= usize::MAX,
                    0 <= k <= nn,
                    expect == Seq::new(
                        nn as nat,
                        |q: int|
                            vstd::bytes::spec_u64_from_le_bytes(
                                s@.subrange(j + 8 * q, j + 8 * q + 8),
                            ),
                    ),
                    out@ =~= expect.take(k as int),
                decreases nn - k,
            {
                let pos = j + 8 * k;
                let w = vstd::bytes::u64_from_le_bytes(vstd::slice::slice_subrange(
                    s.as_slice(),
                    pos,
                    pos + 8,
                ));
                out.push(w);
                assert(out@ =~= expect.take(k + 1));
                k = k + 1;
            }
            assert(out@ =~= expect);
            Some((out, j + 8 * nn))
        },
        None => None,
    }
}

/// Composition helper for the registry-entry loop below.
pub open spec fn pairs_after(
    done: Seq<(u32, Seq<u8>)>,
    rest: Option<(Seq<(u32, Seq<u8>)>, int)>,
) -> Option<(Seq<(u32, Seq<u8>)>, int)> {
    match rest {
        Some((r, e)) => Some((done + r, e)),
        None => None,
    }
}

/// The view of a parsed registry entry.
pub open spec fn pair_view(p: (u32, Vec<u8>)) -> (u32, Seq<u8>) {
    (p.0, p.1@)
}

/// Reads `n` registry entries in a row.
pub fn parse_pairs_at(s: &Vec<u8>, start: usize, n: u64) -> (r: Option<(Vec<(u32, Vec<u8>)>, usize)>)
    ensures
        match r {
            Some((v, j)) => parse_pairs(s@, start as int, n as nat) == Some(
                (v@.map_values(|p: (u32, Vec<u8>)| pair_view(p)), j as int),
            ),
            None => parse_pairs(s@, start as int, n as nat) is None,
        },
{
    let mut out: Vec<(u32, Vec<u8>)> = Vec::new();
    let mut j: usize = start;
    let mut k: u64 = 0;
    while k < n
        invariant
            0 <= k <= n,
            parse_pairs(s@, start as int, n as nat) == pairs_after(
                out@.map_values(|p: (u32, Vec<u8>)| pair_view(p)),
                parse_pairs(s@, j as int, (n - k) as nat),
            ),
        decreases n - k,
    {
        // one entry: 4 index bytes then the owner text
        if s.len() < 4 || j > s.len() - 4 {
            assert(parse_pair(s@, j as int) is None);
            return None;
        }
        let idx = vstd::bytes::u32_from_le_bytes(vstd::slice::slice_subrange(
            s.as_slice(),
            j,
            j + 4,
        ));
        match parse_text_at(s, j + 4) {
            Some((t, j2)) => {
                proof {
                    lemma_parse_uleb_ge(s@, j + 4, 0, 0);
                    assert(parse_pair(s@, j as int) == Some(((idx, t@), j2 as int)));
                }
                let ghost old_done = out@.map_values(|p: (u32, Vec<u8>)| pair_view(p));
                out.push((idx, t));
                proof {
                    assert(out@.map_values(|p: (u32, Vec<u8>)| pair_view(p)) =~= old_done
                        + seq![(idx, t@)]);
                    assert(parse_pairs(s@, j as int, (n - k) as nat) == pairs_after(
                        seq![(idx, t@)],
                        parse_pairs(s@, j2 as int, (n - k - 1) as nat),
                    ));
                    assert(pairs_after(
                        old_done,
                        pairs_after(
                            seq![(idx, t@)],
                            parse_pairs(s@, j2 as int, (n - k - 1) as nat),
                        ),
                    ) =~~= pairs_after(
                        old_done + seq![(idx, t@)],
                        parse_pairs(s@, j2 as int, (n - k - 1) as nat),
                    ));
                }
                j = j2;
                k = k + 1;
            },
            None => {
                assert(parse_pair(s@, j as int) is None);
                return None;
            },
        }
    }
    assert(parse_pairs(s@, j as int, 0) == Some((Seq::<(u32, Seq<u8>)>::empty(), j as int)));
    assert(out@.map_values(|p: (u32, Vec<u8>)| pair_view(p))
        + Seq::<(u32, Seq<u8>)>::empty() =~= out@.map_values(|p: (u32, Vec<u8>)| pair_view(p)));
    Some((out, j))
}


/// Magic and type table opening the one-text-argument layout.
pub open spec fn text_arg_header() -> Seq<u8> {
    seq![0x44u8, 0x49, 0x44, 0x4c, 0x00, 0x01, 0x71]
}

/// Builds the byte form of [`text_arg_header`].
pub fn make_text_arg_header() -> (r: Vec<u8>)
    ensures
        r@ =~= text_arg_header(),
{
    let mut v: Vec<u8> = Vec::new();
    v.push(0x44);
    v.push(0x49);
    v.push(0x44);
    v.push(0x4c);
    v.push(0x00);
    v.push(0x01);
    v.push(0x71);
    assert(v@ =~= text_arg_header());
    v
}

/// Magic and type table opening the one-principal-argument layout.
pub open spec fn principal_arg_header() -> Seq<u8> {
    seq![0x44u8, 0x49, 0x44, 0x4c, 0x00, 0x01, 0x68]
}

/// Builds the byte form of [`principal_arg_header`].
pub fn make_principal_arg_header() -> (r: Vec<u8>)
    ensures
        r@ =~= principal_arg_header(),
{
    let mut v: Vec<u8> = Vec::new();
    v.push(0x44);
    v.push(0x49);
    v.push(0x44);
    v.push(0x4c);
    v.push(0x00);
    v.push(0x01);
    v.push(0x68);
    assert(v@ =~= principal_arg_header());
    v
}

/// Magic and type table opening the account-record argument layout (a record holding a byte-vector field).
pub open spec fn account_record_header() -> Seq<u8> {
    seq![0x44u8, 0x49, 0x44, 0x4c, 0x02, 0x6c, 0x01, 0xce, 0xdf, 0xa0, 0xa8, 0x04, 0x01, 0x6d, 0x7b, 0x01, 0x00]
}

/// Builds the byte form of [`account_record_header`].
pub fn make_account_record_header() -> (r: Vec<u8>)
    ensures
        r@ =~= account_record_header(),
{
    let mut v: Vec<u8> = Vec::new();
    v.push(0x44);
    v.push(0x49);
    v.push(0x44);
    v.push(0x4c);
    v.push(0x02);
    v.push(0x6c);
    v.push(0x01);
    v.push(0xce);
    v.push(0xdf);
    v.push(0xa0);
    v.push(0xa8);
    v.push(0x04);
    v.push(0x01);
    v.push(0x6d);
    v.push(0x7b);
    v.push(0x01);
    v.push(0x00);
    assert(v@ =~= account_record_header());
    v
}

/// Magic and type table opening the tagged-user argument layout (a principal or address variant).
pub open spec fn user_arg_header() -> Seq<u8> {
    seq![0x44u8, 0x49, 0x44, 0x4c, 0x01, 0x6b, 0x02, 0xae, 0x9d, 0xb1, 0x90, 0x01, 0x68, 0xb4, 0xe3, 0xad, 0xe8, 0x09, 0x71, 0x01, 0x00]
}

/// Builds the byte form of [`user_arg_header`].
pub fn make_user_arg_header() -> (r: Vec<u8>)
    ensures
        r@ =~= user_arg_header(),
{
    let mut v: Vec<u8> = Vec::new();
    v.push(0x44);
    v.push(0x49);
    v.push(0x44);
    v.push(0x4c);
    v.push(0x01);
    v.push(0x6b);
    v.push(0x02);
    v.push(0xae);
    v.push(0x9d);
    v.push(0xb1);
    v.push(0x90);
    v.push(0x01);
    v.push(0x68);
    v.push(0xb4);
    v.push(0xe3);
    v.push(0xad);
    v.push(0xe8);
    v.push(0x09);
    v.push(0x71);
    v.push(0x01);
    v.push(0x00);
    assert(v@ =~= user_arg_header());
    v
}

/// Magic and type table opening the tagged success/error token-list reply layout.
pub open spec fn tokens_result_header() -> Seq<u8> {
    seq![0x44u8, 0x49, 0x44, 0x4c, 0x04, 0x6b, 0x02, 0x9c, 0xc2, 0x01, 0x01, 0xe5, 0x8e, 0xb4, 0x02, 0x02, 0x6d, 0x78, 0x6c, 0x02, 0xa2, 0x89, 0xcd, 0x8c, 0x08, 0x03, 0xb0, 0xad, 0x8f, 0xcd, 0x0c, 0x03, 0x6e, 0x71, 0x01, 0x00]
}

/// Builds the byte form of [`tokens_result_header`].
pub fn make_tokens_result_header() -> (r: Vec<u8>)
    ensures
        r@ =~= tokens_result_header(),
{
    let mut v: Vec<u8> = Vec::new();
    v.push(0x44);
    v.push(0x49);
    v.push(0x44);
    v.push(0x4c);
    v.push(0x04);
    v.push(0x6b);
    v.push(0x02);
    v.push(0x9c);
    v.push(0xc2);
    v.push(0x01);
    v.push(0x01);
    v.push(0xe5);
    v.push(0x8e);
    v.push(0xb4);
    v.push(0x02);
    v.push(0x02);
    v.push(0x6d);
    v.push(0x78);
    v.push(0x6c);
    v.push(0x02);
    v.push(0xa2);
    v.push(0x89);
    v.push(0xcd);
    v.push(0x8c);
    v.push(0x08);
    v.push(0x03);
    v.push(0xb0);
    v.push(0xad);
    v.push(0x8f);
    v.push(0xcd);
    v.push(0x0c);
    v.push(0x03);
    v.push(0x6e);
    v.push(0x71);
    v.push(0x01);
    v.push(0x00);
    assert(v@ =~= tokens_result_header());
    v
}

/// Magic and type table opening the bare list-of-indices reply layout.
pub open spec fn bare_list_header() -> Seq<u8> {
    seq![0x44u8, 0x49, 0x44, 0x4c, 0x01, 0x6d, 0x78, 0x01, 0x00]
}

/// Builds the byte form of [`bare_list_header`].
pub fn make_bare_list_header() -> (r: Vec<u8>)
    ensures
        r@ =~= bare_list_header(),
{
    let mut v: Vec<u8> = Vec::new();
    v.push(0x44);
    v.push(0x49);
    v.push(0x44);
    v.push(0x4c);
    v.push(0x01);
    v.push(0x6d);
    v.push(0x78);
    v.push(0x01);
    v.push(0x00);
    assert(v@ =~= bare_list_header());
    v
}

/// Magic and type table opening the tagged numeric balance reply layout.
pub open spec fn balance_header() -> Seq<u8> {
    seq![0x44u8, 0x49, 0x44, 0x4c, 0x02, 0x6b, 0x02, 0x9c, 0xc2, 0x01, 0x7d, 0xe5, 0x8e, 0xb4, 0x02, 0x01, 0x6b, 0x02, 0xa2, 0x89, 0xcd, 0x8c, 0x08, 0x71, 0xb0, 0xad, 0x8f, 0xcd, 0x0c, 0x71, 0x01, 0x00]
}

/// Builds the byte form of [`balance_header`].
pub fn make_balance_header() -> (r: Vec<u8>)
    ensures
        r@ =~= balance_header(),
{
    let mut v: Vec<u8> = Vec::new();
    v.push(0x44);
    v.push(0x49);
    v.push(0x44);
    v.push(0x4c);
    v.push(0x02);
    v.push(0x6b);
    v.push(0x02);
    v.push(0x9c);
    v.push(0xc2);
    v.push(0x01);
    v.push(0x7d);
    v.push(0xe5);
    v.push(0x8e);
    v.push(0xb4);
    v.push(0x02);
    v.push(0x01);
    v.push(0x6b);
    v.push(0x02);
    v.push(0xa2);
    v.push(0x89);
    v.push(0xcd);
    v.push(0x8c);
    v.push(0x08);
    v.push(0x71);
    v.push(0xb0);
    v.push(0xad);
    v.push(0x8f);
    v.push(0xcd);
    v.push(0x0c);
    v.push(0x71);
    v.push(0x01);
    v.push(0x00);
    assert(v@ =~= balance_header());
    v
}

/// Magic and type table opening the registry listing reply layout (a vector of index/owner records).
pub open spec fn registry_header() -> Seq<u8> {
    seq![0x44u8, 0x49, 0x44, 0x4c, 0x02, 0x6d, 0x01, 0x6c, 0x02, 0x00, 0x79, 0x01, 0x71, 0x01, 0x00]
}

/// Builds the byte form of [`registry_header`].
pub fn make_registry_header() -> (r: Vec<u8>)
    ensures
        r@ =~= registry_header(),
{
    let mut v: Vec<u8> = Vec::new();
    v.push(0x44);
    v.push(0x49);
    v.push(0x44);
    v.push(0x4c);
    v.push(0x02);
    v.push(0x6d);
    v.push(0x01);
    v.push(0x6c);
    v.push(0x02);
    v.push(0x00);
    v.push(0x79);
    v.push(0x01);
    v.push(0x71);
    v.push(0x01);
    v.push(0x00);
    assert(v@ =~= registry_header());
    v
}


/// Ghost model of a tagged token-list reply.
pub enum TokensReplyModel {
    /// The success arm: a list of token indices.
    Indices(Seq<u64>),
    /// The error arm: an optional invalid-token message and an optional
    /// catch-all message.
    Problem { invalid_token: Option<Seq<u8>>, other: Option<Seq<u8>> },
}

/// Ghost model of a tagged numeric balance reply.
pub enum BalanceReplyModel {
    /// The success arm: the balance, or `None` when it does not fit a `u64`.
    Amount(Option<u64>),
    /// The error arm.
    Rejected(CommonErrModel),
}

/// Ghost model of the common error variant carried by balance replies.
pub enum CommonErrModel {
    InvalidToken(Seq<u8>),
    Other(Seq<u8>),
}

/// A tagged token-list reply, as parsed from bytes.
pub enum RawTokensReply {
    Indices(Vec<u64>),
    Problem { invalid_token: Option<Vec<u8>>, other: Option<Vec<u8>> },
}

/// A tagged numeric balance reply, as parsed from bytes.
pub enum RawBalanceReply {
    Amount(Option<u64>),
    Rejected(RawCommonErr),
}

/// The common error variant carried by balance replies, as parsed from bytes.
pub enum RawCommonErr {
    InvalidToken(Vec<u8>),
    Other(Vec<u8>),
}

pub open spec fn opt_bytes_view(o: Option<Vec<u8>>) -> Option<Seq<u8>> {
    match o {
        Some(v) => Some(v@),
        None => None,
    }
}

pub open spec fn raw_tokens_reply_view(r: RawTokensReply) -> TokensReplyModel {
    match r {
        RawTokensReply::Indices(v) => TokensReplyModel::Indices(v@),
        RawTokensReply::Problem { invalid_token, other } => TokensReplyModel::Problem {
            invalid_token: opt_bytes_view(invalid_token),
            other: opt_bytes_view(other),
        },
    }
}

pub open spec fn raw_common_err_view(e: RawCommonErr) -> CommonErrModel {
    match e {
        RawCommonErr::InvalidToken(v) => CommonErrModel::InvalidToken(v@),
        RawCommonErr::Other(v) => CommonErrModel::Other(v@),
    }
}

pub open spec fn raw_balance_reply_view(r: RawBalanceReply) -> BalanceReplyModel {
    match r {
        RawBalanceReply::Amount(a) => BalanceReplyModel::Amount(a),
        RawBalanceReply::Rejected(e) => BalanceReplyModel::Rejected(raw_common_err_view(e)),
    }
}

/// The tagged success/error token-list reply: what a byte string means under
/// that layout, if anything.
pub open spec fn parse_tokens_result(s: Seq<u8>) -> Option<TokensReplyModel> {
    if !has_prefix_spec(s, tokens_result_header()) {
        None
    } else {
        let i = tokens_result_header().len() as int;
        match parse_uleb64(s, i) {
            Some((tag, j)) => if tag == 0 {
                match parse_vec_nat64(s, j) {
                    Some((v, e)) => if e == s.len() {
                        Some(TokensReplyModel::Indices(v))
                    } else {
                        None
                    },
                    None => None,
                }
            } else if tag == 1 {
                match parse_opt_text(s, j) {
                    Some((it, j2)) => match parse_opt_text(s, j2) {
                        Some((ot, e)) => if e == s.len() {
                            Some(TokensReplyModel::Problem { invalid_token: it, other: ot })
                        } else {
                            None
                        },
                        None => None,
                    },
                    None => None,
                }
            } else {
                None
            },
            None => None,
        }
    }
}

/// The bare list-of-indices reply.
pub open spec fn parse_bare_list(s: Seq<u8>) -> Option<Seq<u64>> {
    if !has_prefix_spec(s, bare_list_header()) {
        None
    } else {
        match parse_vec_nat64(s, bare_list_header().len() as int) {
            Some((v, e)) => if e == s.len() {
                Some(v)
            } else {
                None
            },
            None => None,
        }
    }
}

/// The tagged numeric balance reply.
pub open spec fn parse_balance(s: Seq<u8>) -> Option<BalanceReplyModel> {
    if !has_prefix_spec(s, balance_header()) {
        None
    } else {
        let i = balance_header().len() as int;
        match parse_uleb64(s, i) {
            Some((tag, j)) => if tag == 0 {
                match parse_nat(s, j) {
                    Some((v, e)) => if e == s.len() {
                        Some(BalanceReplyModel::Amount(v))
                    } else {
                        None
                    },
                    None => None,
                }
            } else if tag == 1 {
                match parse_uleb64(s, j) {
                    Some((tag2, j2)) => if tag2 == 0 || tag2 == 1 {
                        match parse_text(s, j2) {
                            Some((t, e)) => if e == s.len() {
                                if tag2 == 0 {
                                    Some(BalanceReplyModel::Rejected(CommonErrModel::InvalidToken(t)))
                                } else {
                                    Some(BalanceReplyModel::Rejected(CommonErrModel::Other(t)))
                                }
                            } else {
                                None
                            },
                            None => None,
                        }
                    } else {
                        None
                    },
                    None => None,
                }
            } else {
                None
            },
            None => None,
        }
    }
}

/// The registry listing reply: a vector of (index, owner text) records.
pub open spec fn parse_registry(s: Seq<u8>) -> Option<Seq<(u32, Seq<u8>)>> {
    if !has_prefix_spec(s, registry_header()) {
        None
    } else {
        match parse_uleb64(s, registry_header().len() as int) {
            Some((n, j)) => match parse_pairs(s, j, n as nat) {
                Some((v, e)) => if e == s.len() {
                    Some(v)
                } else {
                    None
                },
                None => None,
            },
            None => None,
        }
    }
}

/// Parses a byte string under the tagged success/error token-list layout.
pub fn parse_tokens_result_bytes(s: &Vec<u8>) -> (r: Option<RawTokensReply>)
    ensures
        match r {
            Some(x) => parse_tokens_result(s@) == Some(raw_tokens_reply_view(x)),
            None => parse_tokens_result(s@) is None,
        },
{
    let h = make_tokens_result_header();
    if !has_prefix(s, &h) {
        return None;
    }
    match parse_uleb64_at(s, h.len()) {
        Some((tag, j)) => {
            if tag == 0 {
                match parse_vec_nat64_at(s, j) {
                    Some((v, e)) => if e == s.len() {
                        Some(RawTokensReply::Indices(v))
                    } else {
                        None
                    },
                    None => None,
                }
            } else if tag == 1 {
                match parse_opt_text_at(s, j) {
                    Some((it, j2)) => match parse_opt_text_at(s, j2) {
                        Some((ot, e)) => if e == s.len() {
                            Some(RawTokensReply::Problem { invalid_token: it, other: ot })
                        } else {
                            None
                        },
                        None => None,
                    },
                    None => None,
                }
            } else {
                None
            }
        },
        None => None,
    }
}

/// Parses a byte string under the bare list-of-indices layout.
pub fn parse_bare_list_bytes(s: &Vec<u8>) -> (r: Option<Vec<u64>>)
    ensures
        match r {
            Some(v) => parse_bare_list(s@) == Some(v@),
            None => parse_bare_list(s@) is None,
        },
{
    let h = make_bare_list_header();
    if !has_prefix(s, &h) {
        return None;
    }
    match parse_vec_nat64_at(s, h.len()) {
        Some((v, e)) => if e == s.len() {
            Some(v)
        } else {
            None
        },
        None => None,
    }
}

/// Parses a byte string under the tagged numeric balance layout.
pub fn parse_balance_bytes(s: &Vec<u8>) -> (r: Option<RawBalanceReply>)
    ensures
        match r {
            Some(x) => parse_balance(s@) == Some(raw_balance_reply_view(x)),
            None => parse_balance(s@) is None,
        },
{
    let h = make_balance_header();
    if !has_prefix(s, &h) {
        return None;
    }
    match parse_uleb64_at(s, h.len()) {
        Some((tag, j)) => {
            if tag == 0 {
                match parse_nat_at(s, j) {
                    Some((v, e)) => if e == s.len() {
                        Some(RawBalanceReply::Amount(v))
                    } else {
                        None
                    },
                    None => None,
                }
            } else if tag == 1 {
                match parse_uleb64_at(s, j) {
                    Some((tag2, j2)) => {
                        if tag2 == 0 || tag2 == 1 {
                            match parse_text_at(s, j2) {
                                Some((t, e)) => if e == s.len() {
                                    if tag2 == 0 {
                                        Some(RawBalanceReply::Rejected(RawCommonErr::InvalidToken(t)))
                                    } else {
                                        Some(RawBalanceReply::Rejected(RawCommonErr::Other(t)))
                                    }
                                } else {
                                    None
                                },
                                None => None,
                            }
                        } else {
                            None
                        }
                    },
                    None => None,
                }
            } else {
                None
            }
        },
        None => None,
    }
}

/// Parses a byte string under the registry listing layout.
pub fn parse_registry_bytes(s: &Vec<u8>) -> (r: Option<Vec<(u32, Vec<u8>)>>)
    ensures
        match r {
            Some(v) => parse_registry(s@) == Some(v@.map_values(|p: (u32, Vec<u8>)| pair_view(p))),
            None => parse_registry(s@) is None,
        },
{
    let h = make_registry_header();
    if !has_prefix(s, &h) {
        return None;
    }
    match parse_uleb64_at(s, h.len()) {
        Some((n, j)) => match parse_pairs_at(s, j, n) {
            Some((v, e)) => if e == s.len() {
                Some(v)
            } else {
                None
            },
            None => None,
        },
        None => None,
    }
}


/// The one-text argument encoding of payload `t`.
pub open spec fn text_arg(t: Seq<u8>) -> Seq<u8> {
    text_arg_header() + uleb(t.len()) + t
}

/// The one-principal argument encoding of the raw identity bytes.
pub open spec fn principal_arg(raw: Seq<u8>) -> Seq<u8> {
    principal_arg_header() + seq![0x01u8] + uleb(raw.len()) + raw
}

/// The account-record argument encoding of a derived address.
pub open spec fn account_record_arg(h: Seq<u8>) -> Seq<u8> {
    account_record_header() + uleb(h.len()) + h
}

/// The tagged-user argument carrying raw identity bytes.
pub open spec fn user_principal_arg(raw: Seq<u8>) -> Seq<u8> {
    user_arg_header() + seq![0x00u8, 0x01u8] + uleb(raw.len()) + raw
}

/// The tagged-user argument carrying a textual address.
pub open spec fn user_address_arg(t: Seq<u8>) -> Seq<u8> {
    user_arg_header() + seq![0x01u8] + uleb(t.len()) + t
}

/// Appends a length-prefixed byte string.
fn push_text(out: &mut Vec<u8>, t: &Vec<u8>)
    ensures
        final(out)@ == old(out)@ + uleb(t@.len()) + t@,
{
    push_uleb(out, t.len() as u64);
    let mut i: usize = 0;
    let n = t.len();
    while i < n
        invariant
            n == t@.len(),
            0 <= i <= n,
            out@ =~= old(out)@ + uleb(t@.len()) + t@.take(i as int),
        decreases n - i,
    {
        out.push(t[i]);
        assert(out@ =~= old(out)@ + uleb(t@.len()) + t@.take(i + 1));
        i = i + 1;
    }
    assert(out@ =~= old(out)@ + uleb(t@.len()) + t@);
}

/// Builds the one-text argument.
pub fn enc_text_arg(t: &Vec<u8>) -> (r: Vec<u8>)
    ensures
        r@ == text_arg(t@),
{
    let mut out = make_text_arg_header();
    push_text(&mut out, t);
    assert(out@ =~= text_arg(t@));
    out
}

/// Builds the one-principal argument.
pub fn enc_principal_arg(raw: &Vec<u8>) -> (r: Vec<u8>)
    ensures
        r@ == principal_arg(raw@),
{
    let mut out = make_principal_arg_header();
    out.push(0x01);
    assert(out@ =~= principal_arg_header() + seq![0x01u8]);
    push_text(&mut out, raw);
    assert(out@ =~= principal_arg(raw@));
    out
}

/// Builds the account-record argument.
pub fn enc_account_record_arg(h: &Vec<u8>) -> (r: Vec<u8>)
    ensures
        r@ == account_record_arg(h@),
{
    let mut out = make_account_record_header();
    push_text(&mut out, h);
    assert(out@ =~= account_record_arg(h@));
    out
}

/// Builds the tagged-user argument carrying raw identity bytes.
pub fn enc_user_principal_arg(raw: &Vec<u8>) -> (r: Vec<u8>)
    ensures
        r@ == user_principal_arg(raw@),
{
    let mut out = make_user_arg_header();
    out.push(0x00);
    out.push(0x01);
    assert(out@ =~= user_arg_header() + seq![0x00u8, 0x01u8]);
    push_text(&mut out, raw);
    assert(out@ =~= user_principal_arg(raw@));
    out
}

/// Builds the tagged-user argument carrying a textual address.
pub fn enc_user_address_arg(t: &Vec<u8>) -> (r: Vec<u8>)
    ensures
        r@ == user_address_arg(t@),
{
    let mut out = make_user_arg_header();
    out.push(0x01);
    assert(out@ =~= user_arg_header() + seq![0x01u8]);
    push_text(&mut out, t);
    assert(out@ =~= user_address_arg(t@));
    out
}

/// The concatenated little-endian encodings of a list of 64-bit values.
pub open spec fn nat64_le_concat(v: Seq<u64>) -> Seq<u8>
    decreases v.len(),
{
    if v.len() == 0 {
        Seq::empty()
    } else {
        vstd::bytes::spec_u64_to_le_bytes(v[0]) + nat64_le_concat(v.drop_first())
    }
}

/// Appending one value extends the concatenation by its encoding.
pub proof fn lemma_nat64_le_concat_snoc(v: Seq<u64>, k: int)
    requires
        0 <= k < v.len(),
    ensures
        nat64_le_concat(v.take(k + 1)) == nat64_le_concat(v.take(k))
            + vstd::bytes::spec_u64_to_le_bytes(v[k]),
    decreases k,
{
    if k == 0 {
        assert(v.take(1) =~= seq![v[0]]);
        assert(v.take(1).drop_first() =~= Seq::<u64>::empty());
        assert(v.take(0) =~= Seq::<u64>::empty());
        assert(v.take(1)[0] == v[0]);
        assert(nat64_le_concat(v.take(1)) == vstd::bytes::spec_u64_to_le_bytes(v[0])
            + nat64_le_concat(Seq::<u64>::empty()));
        assert(vstd::bytes::spec_u64_to_le_bytes(v[0]) + Seq::<u8>::empty()
            =~= vstd::bytes::spec_u64_to_le_bytes(v[0]));
        assert(nat64_le_concat(v.take(0)) + vstd::bytes::spec_u64_to_le_bytes(v[0])
            =~= vstd::bytes::spec_u64_to_le_bytes(v[0]));
    } else {
        lemma_nat64_le_concat_snoc(v.drop_first(), k - 1);
        assert(v.take(k + 1).drop_first() =~= v.drop_first().take(k));
        assert(v.take(k).drop_first() =~= v.drop_first().take(k - 1));
        assert(v.take(k + 1)[0] == v[0]);
        assert(v.take(k)[0] == v[0]);
        assert(v.drop_first()[k - 1] == v[k]);
        assert(nat64_le_concat(v.take(k + 1)) == vstd::bytes::spec_u64_to_le_bytes(v[0])
            + nat64_le_concat(v.drop_first().take(k)));
        assert(nat64_le_concat(v.take(k)) == vstd::bytes::spec_u64_to_le_bytes(v[0])
            + nat64_le_concat(v.drop_first().take(k - 1)));
    }
}

/// Appends the count and little-endian bytes of a list of 64-bit values.
fn push_nat64_list(out: &mut Vec<u8>, v: &Vec<u64>)
    ensures
        final(out)@ == old(out)@ + uleb(v@.len()) + nat64_le_concat(v@),
{
    push_uleb(out, v.len() as u64);
    let n = v.len();
    let mut i: usize = 0;
    while i < n
        invariant
            n == v@.len(),
            0 <= i <= n,
            out@ =~= old(out)@ + uleb(v@.len()) + nat64_le_concat(v@.take(i as int)),
        decreases n - i,
    {
        let mut bytes = vstd::bytes::u64_to_le_bytes(v[i]);
        out.append(&mut bytes);
        proof {
            lemma_nat64_le_concat_snoc(v@, i as int);
        }
        assert(out@ =~= old(out)@ + uleb(v@.len()) + nat64_le_concat(v@.take(i + 1)));
        i = i + 1;
    }
    assert(v@.take(n as int) =~= v@);
}

/// The tagged success reply carrying a list of token indices.
pub open spec fn tokens_ok_reply(v: Seq<u64>) -> Seq<u8> {
    tokens_result_header() + seq![0x00u8] + uleb(v.len()) + nat64_le_concat(v)
}

/// The byte form of an optional length-prefixed byte string.
pub open spec fn opt_text_bytes(t: Option<Seq<u8>>) -> Seq<u8> {
    match t {
        None => seq![0x00u8],
        Some(b) => seq![0x01u8] + uleb(b.len()) + b,
    }
}

/// The tagged error reply carrying the two optional messages.
pub open spec fn tokens_err_reply(it: Option<Seq<u8>>, ot: Option<Seq<u8>>) -> Seq<u8> {
    tokens_result_header() + seq![0x01u8] + opt_text_bytes(it) + opt_text_bytes(ot)
}

/// The bare list reply carrying a list of token indices.
pub open spec fn bare_list_reply(v: Seq<u64>) -> Seq<u8> {
    bare_list_header() + uleb(v.len()) + nat64_le_concat(v)
}

/// The tagged numeric balance success reply.
pub open spec fn balance_ok_reply(v: u64) -> Seq<u8> {
    balance_header() + seq![0x00u8] + uleb(v as nat)
}

/// Builds the tagged success reply for a list of token indices.
pub fn enc_tokens_ok_reply(v: &Vec<u64>) -> (r: Vec<u8>)
    ensures
        r@ == tokens_ok_reply(v@),
{
    let mut out = make_tokens_result_header();
    out.push(0x00);
    assert(out@ =~= tokens_result_header() + seq![0x00u8]);
    push_nat64_list(&mut out, v);
    assert(out@ =~= tokens_ok_reply(v@));
    out
}

/// Appends an optional length-prefixed byte string.
fn push_opt_text(out: &mut Vec<u8>, t: &Option<Vec<u8>>)
    ensures
        final(out)@ == old(out)@ + opt_text_bytes(opt_bytes_view(*t)),
{
    match t {
        None => {
            out.push(0x00);
            assert(out@ =~= old(out)@ + opt_text_bytes(None));
        },
        Some(b) => {
            out.push(0x01);
            assert(out@ =~= old(out)@ + seq![0x01u8]);
            push_text(out, b);
            assert(out@ =~= old(out)@ + opt_text_bytes(Some(b@)));
        },
    }
}

/// Builds the tagged error reply with the two optional messages.
pub fn enc_tokens_err_reply(invalid_token: &Option<Vec<u8>>, other: &Option<Vec<u8>>) -> (r: Vec<
    u8,
>)
    ensures
        r@ == tokens_err_reply(opt_bytes_view(*invalid_token), opt_bytes_view(*other)),
{
    let mut out = make_tokens_result_header();
    out.push(0x01);
    assert(out@ =~= tokens_result_header() + seq![0x01u8]);
    push_opt_text(&mut out, invalid_token);
    push_opt_text(&mut out, other);
    assert(out@ =~= tokens_err_reply(opt_bytes_view(*invalid_token), opt_bytes_view(*other)));
    out
}

/// Builds the bare list reply for a list of token indices.
pub fn enc_bare_list_reply(v: &Vec<u64>) -> (r: Vec<u8>)
    ensures
        r@ == bare_list_reply(v@),
{
    let mut out = make_bare_list_header();
    push_nat64_list(&mut out, v);
    assert(out@ =~= bare_list_reply(v@));
    out
}

/// Builds the tagged numeric balance success reply.
pub fn enc_balance_ok_reply(v: u64) -> (r: Vec<u8>)
    ensures
        r@ == balance_ok_reply(v),
{
    let mut out = make_balance_header();
    out.push(0x00);
    assert(out@ =~= balance_header() + seq![0x00u8]);
    push_uleb(&mut out, v);
    assert(out@ =~= balance_ok_reply(v));
    out
}

/// The byte form of one registry entry.
pub open spec fn registry_pair_bytes(p: (u32, Seq<u8>)) -> Seq<u8> {
    vstd::bytes::spec_u32_to_le_bytes(p.0) + uleb(p.1.len()) + p.1
}

/// The concatenated byte forms of a list of registry entries.
pub open spec fn registry_pairs_bytes(v: Seq<(u32, Seq<u8>)>) -> Seq<u8>
    decreases v.len(),
{
    if v.len() == 0 {
        Seq::empty()
    } else {
        registry_pair_bytes(v[0]) + registry_pairs_bytes(v.drop_first())
    }
}

/// Appending one entry extends the concatenation by its byte form.
pub proof fn lemma_registry_pairs_bytes_snoc(v: Seq<(u32, Seq<u8>)>, k: int)
    requires
        0 <= k < v.len(),
    ensures
        registry_pairs_bytes(v.take(k + 1)) == registry_pairs_bytes(v.take(k))
            + registry_pair_bytes(v[k]),
    decreases k,
{
    if k == 0 {
        assert(v.take(1) =~= seq![v[0]]);
        assert(v.take(1).drop_first() =~= Seq::<(u32, Seq<u8>)>::empty());
        assert(v.take(0) =~= Seq::<(u32, Seq<u8>)>::empty());
        assert(v.take(1)[0] == v[0]);
        assert(registry_pairs_bytes(v.take(1)) == registry_pair_bytes(v[0])
            + registry_pairs_bytes(Seq::<(u32, Seq<u8>)>::empty()));
        assert(registry_pair_bytes(v[0]) + Seq::<u8>::empty() =~= registry_pair_bytes(v[0]));
        assert(registry_pairs_bytes(v.take(0)) + registry_pair_bytes(v[0])
            =~= registry_pair_bytes(v[0]));
    } else {
        lemma_registry_pairs_bytes_snoc(v.drop_first(), k - 1);
        assert(v.take(k + 1).drop_first() =~= v.drop_first().take(k));
        assert(v.take(k).drop_first() =~= v.drop_first().take(k - 1));
        assert(v.take(k + 1)[0] == v[0]);
        assert(v.take(k)[0] == v[0]);
        assert(v.drop_first()[k - 1] == v[k]);
    }
}

/// The registry listing reply for a list of entries.
pub open spec fn registry_reply(v: Seq<(u32, Seq<u8>)>) -> Seq<u8> {
    registry_header() + uleb(v.len()) + registry_pairs_bytes(v)
}

/// Builds the registry listing reply.
pub fn enc_registry_reply(v: &Vec<(u32, Vec<u8>)>) -> (r: Vec<u8>)
    ensures
        r@ == registry_reply(v@.map_values(|p: (u32, Vec<u8>)| pair_view(p))),
{
    let ghost model: Seq<(u32, Seq<u8>)> = v@.map_values(|p: (u32, Vec<u8>)| pair_view(p));
    let mut out = make_registry_header();
    push_uleb(&mut out, v.len() as u64);
    let n = v.len();
    let mut i: usize = 0;
    while i < n
        invariant
            n == v@.len(),
            0 <= i <= n,
            model == v@.map_values(|p: (u32, Vec<u8>)| pair_view(p)),
            out@ =~= registry_header() + uleb(model.len()) + registry_pairs_bytes(
                model.take(i as int),
            ),
        decreases n - i,
    {
        let idx = v[i].0;
        let mut bytes = vstd::bytes::u32_to_le_bytes(idx);
        out.append(&mut bytes);
        let t = &v[i].1;
        push_text(&mut out, t);
        proof {
            lemma_registry_pairs_bytes_snoc(model, i as int);
            assert(model[i as int] == pair_view(v@[i as int]));
        }
        assert(out@ =~= registry_header() + uleb(model.len()) + registry_pairs_bytes(
            model.take(i + 1),
        ));
        i = i + 1;
    }
    assert(model.take(n as int) =~= model);
    out
}


/// Parsing resumes exactly past a minimal LEB128 encoding embedded at `i`.
pub proof fn lemma_parse_uleb_of_enc(s: Seq<u8>, i: int, shift: nat, acc: nat, m: nat)
    requires
        0 <= i,
        i + uleb(m).len() <= s.len(),
        s.subrange(i, i + uleb(m).len() as int) == uleb(m),
    ensures
        parse_uleb_rec(s, i, shift, acc) == Some(
            ((acc + m * pow2(shift)) as nat, i + uleb(m).len()),
        ),
    decreases m,
{
    lemma2_to64();
    if m < 0x80 {
        assert(uleb(m) =~= seq![m as u8]);
        assert(s.subrange(i, i + 1)[0] == s[i]);
        assert(s[i] == m as u8);
        assert((s[i] % 0x80) as nat == m);
        vstd::arithmetic::power2::lemma_pow2_pos(shift);
    } else {
        let b = (((m % 0x80) + 0x80)) as u8;
        let rest = uleb(m / 0x80);
        assert(uleb(m) == seq![b] + rest);
        assert(s.subrange(i, i + uleb(m).len() as int)[0] == s[i]);
        assert(s[i] == b);
        assert(s[i] >= 0x80 && (s[i] % 0x80) as nat == m % 0x80);
        assert(s.subrange(i + 1, i + 1 + rest.len() as int) =~= uleb(m).subrange(
            1,
            uleb(m).len() as int,
        ));
        assert(uleb(m).subrange(1, uleb(m).len() as int) =~= rest);
        lemma_parse_uleb_of_enc(
            s,
            i + 1,
            (shift + 7) as nat,
            (acc + (m % 0x80) * pow2(shift)) as nat,
            m / 0x80,
        );
        lemma_pow2_adds(shift, 7);
        assert(acc + (m % 0x80) * pow2(shift) + (m / 0x80) * pow2((shift + 7) as nat) == acc + m
            * pow2(shift)) by (nonlinear_arith)
            requires
                pow2((shift + 7) as nat) == pow2(shift) * 128,
                m == (m % 0x80) + 0x80 * (m / 0x80),
        ;
    }
}

/// A value's minimal LEB128 encoding parses back to that value.
pub proof fn lemma_parse_nat_of_enc(s: Seq<u8>, i: int, n: u64)
    requires
        0 <= i,
        i + uleb(n as nat).len() <= s.len(),
        s.subrange(i, i + uleb(n as nat).len() as int) == uleb(n as nat),
    ensures
        parse_nat(s, i) == Some((Some(n), i + uleb(n as nat).len())),
        parse_uleb64(s, i) == Some((n, i + uleb(n as nat).len())),
{
    lemma_parse_uleb_of_enc(s, i, 0, 0, n as nat);
    lemma2_to64();
}

/// The concatenated encodings of `n` values take `8 n` bytes.
pub proof fn lemma_nat64_le_concat_len(v: Seq<u64>)
    ensures
        nat64_le_concat(v).len() == 8 * v.len(),
    decreases v.len(),
{
    vstd::bytes::lemma_auto_spec_u64_to_from_le_bytes();
    if v.len() > 0 {
        lemma_nat64_le_concat_len(v.drop_first());
    }
}

/// Each value's encoding sits at its slot of the concatenation.
pub proof fn lemma_nat64_le_concat_index(v: Seq<u64>, k: int)
    requires
        0 <= k < v.len(),
    ensures
        nat64_le_concat(v).subrange(8 * k, 8 * k + 8) == vstd::bytes::spec_u64_to_le_bytes(
            v[k],
        ),
    decreases k,
{
    vstd::bytes::lemma_auto_spec_u64_to_from_le_bytes();
    lemma_nat64_le_concat_len(v);
    lemma_nat64_le_concat_len(v.drop_first());
    if k == 0 {
        assert(nat64_le_concat(v).subrange(0, 8) =~= vstd::bytes::spec_u64_to_le_bytes(v[0]));
    } else {
        lemma_nat64_le_concat_index(v.drop_first(), k - 1);
        assert(v.drop_first()[k - 1] == v[k]);
        assert(nat64_le_concat(v).subrange(8 * k, 8 * k + 8) =~= nat64_le_concat(
            v.drop_first(),
        ).subrange(8 * (k - 1), 8 * (k - 1) + 8));
    }
}

/// A bare list reply parses back to exactly the list it encodes.
pub proof fn lemma_bare_list_round_trip(v: Seq<u64>)
    requires
        v.len() <= u64::MAX,
    ensures
        parse_bare_list(bare_list_reply(v)) == Some(v),
{
    let s = bare_list_reply(v);
    let h = bare_list_header();
    let ul = uleb(v.len());
    lemma_nat64_le_concat_len(v);
    assert(s.take(h.len() as int) =~= h);
    assert(has_prefix_spec(s, h));
    assert(s.subrange(h.len() as int, (h.len() + ul.len()) as int) =~= ul);
    lemma_parse_nat_of_enc(s, h.len() as int, v.len() as u64);
    let j = h.len() + ul.len();
    assert(j + 8 * v.len() == s.len());
    let parsed = Seq::new(
        v.len(),
        |k: int| vstd::bytes::spec_u64_from_le_bytes(s.subrange(j + 8 * k, j + 8 * k + 8)),
    );
    assert forall|k: int| 0 <= k < v.len() implies parsed[k] == v[k] by {
        lemma_nat64_le_concat_index(v, k);
        assert(s.subrange(j + 8 * k, j + 8 * k + 8) =~= nat64_le_concat(v).subrange(
            8 * k,
            8 * k + 8,
        ));
        vstd::bytes::lemma_auto_spec_u64_to_from_le_bytes();
    }
    assert(parsed =~= v);
}

/// A tagged success reply parses back to exactly the index list it
/// encodes.
pub proof fn lemma_tokens_ok_round_trip(v: Seq<u64>)
    requires
        v.len() <= u64::MAX,
    ensures
        parse_tokens_result(tokens_ok_reply(v)) == Some(TokensReplyModel::Indices(v)),
{
    let s = tokens_ok_reply(v);
    let h = tokens_result_header();
    let ul = uleb(v.len());
    lemma_nat64_le_concat_len(v);
    assert(s.take(h.len() as int) =~= h);
    assert(has_prefix_spec(s, h));
    assert(s.subrange(h.len() as int, (h.len() + 1) as int) =~= uleb(0));
    lemma_parse_nat_of_enc(s, h.len() as int, 0);
    let i2 = h.len() + 1;
    assert(s.subrange(i2 as int, (i2 + ul.len()) as int) =~= ul);
    lemma_parse_nat_of_enc(s, i2 as int, v.len() as u64);
    let j = i2 + ul.len();
    assert(j + 8 * v.len() == s.len());
    let parsed = Seq::new(
        v.len(),
        |k: int| vstd::bytes::spec_u64_from_le_bytes(s.subrange(j + 8 * k, j + 8 * k + 8)),
    );
    assert forall|k: int| 0 <= k < v.len() implies parsed[k] == v[k] by {
        lemma_nat64_le_concat_index(v, k);
        assert(s.subrange(j + 8 * k, j + 8 * k + 8) =~= nat64_le_concat(v).subrange(
            8 * k,
            8 * k + 8,
        ));
        vstd::bytes::lemma_auto_spec_u64_to_from_le_bytes();
    }
    assert(parsed =~= v);
}


/// Byte lengths of encoded registry entries are finite and positional.
pub proof fn lemma_registry_pair_bytes_len(p: (u32, Seq<u8>))
    ensures
        registry_pair_bytes(p).len() == 4 + uleb(p.1.len()).len() + p.1.len(),
{
    vstd::bytes::lemma_auto_spec_u32_to_from_le_bytes();
}

/// A run of encoded registry entries embedded at `i` parses back to
/// exactly those entries.
pub proof fn lemma_parse_pairs_of_enc(s: Seq<u8>, i: int, ps: Seq<(u32, Seq<u8>)>)
    requires
        0 <= i,
        i + registry_pairs_bytes(ps).len() <= s.len(),
        s.subrange(i, i + registry_pairs_bytes(ps).len() as int) == registry_pairs_bytes(ps),
        forall|k: int| 0 <= k < ps.len() ==> (#[trigger] ps[k]).1.len() <= u64::MAX,
    ensures
        parse_pairs(s, i, ps.len()) == Some((ps, i + registry_pairs_bytes(ps).len())),
    decreases ps.len(),
{
    vstd::bytes::lemma_auto_spec_u32_to_from_le_bytes();
    if ps.len() == 0 {
        assert(parse_pairs(s, i, 0) == Some((Seq::<(u32, Seq<u8>)>::empty(), i)));
        assert(ps =~= Seq::<(u32, Seq<u8>)>::empty());
    } else {
        let p = ps[0];
        let pb = registry_pair_bytes(p);
        let rest = registry_pairs_bytes(ps.drop_first());
        lemma_registry_pair_bytes_len(p);
        assert(registry_pairs_bytes(ps) == pb + rest);
        let ul = uleb(p.1.len());
        let le = vstd::bytes::spec_u32_to_le_bytes(p.0);
        let big = s.subrange(i, i + registry_pairs_bytes(ps).len() as int);
        assert(big == pb + rest);
        assert(pb == le + ul + p.1);
        // the four index bytes
        assert(s.subrange(i, i + 4) =~= le) by {
            assert forall|t: int| 0 <= t < 4 implies s.subrange(i, i + 4)[t] == le[t] by {
                assert(big[t] == s[i + t]);
                assert((pb + rest)[t] == pb[t]);
                assert(pb[t] == le[t]);
            }
        }
        assert(vstd::bytes::spec_u32_from_le_bytes(s.subrange(i, i + 4)) == p.0);
        // the owner text: length then content
        assert(s.subrange(i + 4, i + 4 + ul.len() as int) =~= ul) by {
            assert forall|t: int| 0 <= t < ul.len() implies s.subrange(
                i + 4,
                i + 4 + ul.len() as int,
            )[t] == ul[t] by {
                assert(big[4 + t] == s[i + 4 + t]);
                assert((pb + rest)[4 + t] == pb[4 + t]);
                assert(pb[4 + t] == ul[t]);
            }
        }
        lemma_parse_nat_of_enc(s, i + 4, p.1.len() as u64);
        let j = i + 4 + ul.len();
        assert(s.subrange(j as int, j + p.1.len() as int) =~= p.1) by {
            assert forall|t: int| 0 <= t < p.1.len() implies s.subrange(
                j as int,
                j + p.1.len() as int,
            )[t] == p.1[t] by {
                assert(big[4 + ul.len() + t] == s[j + t]);
                assert((pb + rest)[4 + ul.len() + t] == pb[4 + ul.len() + t]);
                assert(pb[4 + ul.len() + t] == p.1[t]);
            }
        }
        assert(parse_text(s, i + 4) == Some((p.1, j + p.1.len())));
        let j2 = j + p.1.len();
        assert(parse_pair(s, i) == Some(((p.0, p.1), j2)));
        assert((p.0, p.1) == p);
        // the remaining entries, shifted past this one
        assert(s.subrange(j2 as int, j2 + rest.len() as int) =~= rest) by {
            assert forall|t: int| 0 <= t < rest.len() implies s.subrange(
                j2 as int,
                j2 + rest.len() as int,
            )[t] == rest[t] by {
                assert(big[pb.len() + t] == s[j2 + t]);
                assert((pb + rest)[pb.len() + t] == rest[t]);
            }
        }
        lemma_parse_pairs_of_enc(s, j2, ps.drop_first());
        assert(seq![p] + ps.drop_first() =~= ps);
    }
}

/// A registry listing reply parses back to exactly the entries it
/// encodes.
pub proof fn lemma_registry_round_trip(ps: Seq<(u32, Seq<u8>)>)
    requires
        ps.len() <= u64::MAX,
        forall|k: int| 0 <= k < ps.len() ==> (#[trigger] ps[k]).1.len() <= u64::MAX,
    ensures
        parse_registry(registry_reply(ps)) == Some(ps),
{
    let s = registry_reply(ps);
    let h = registry_header();
    let ul = uleb(ps.len());
    assert(s.take(h.len() as int) =~= h);
    assert(has_prefix_spec(s, h));
    assert(s.subrange(h.len() as int, (h.len() + ul.len()) as int) =~= ul);
    lemma_parse_nat_of_enc(s, h.len() as int, ps.len() as u64);
    let j = h.len() + ul.len();
    assert(s.subrange(j as int, j + registry_pairs_bytes(ps).len() as int)
        =~= registry_pairs_bytes(ps));
    lemma_parse_pairs_of_enc(s, j as int, ps);
}

} // verus!
