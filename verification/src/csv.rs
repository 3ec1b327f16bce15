//! Bulk import of historical holder snapshots from comma-separated text.
//!
//! Each file carries a header line, then one line per holder: an account
//! identifier, the holder's principal text, a token-id list, and a token
//! count.  Lines that are blank, short, or carry an unparseable principal
//! or count are skipped; counts for a repeated principal accumulate.

use vstd::prelude::*;
use vstd::string::StringSliceAdditionalSpecFns;
use vstd::string::StrSliceExecFns;

use crate::cache::{holder_wf, HolderInfo};
use crate::ids;

verus! {

/// A raw snapshot row, as laid out in the files.
#[derive(Clone, Debug)]
pub struct CSVHolderEntry {
    pub account_identifier: String,
    pub principal: Option<String>,
    pub token_ids: String,
    pub number_of_tokens: u64,
}

/// Splitting a byte sequence at a separator, defined from the back: a new
/// empty field after each separator, every other byte appended to the
/// last field.
pub open spec fn split_fields(s: Seq<u8>, sep: u8) -> Seq<Seq<u8>>
    decreases s.len(),
{
    if s.len() == 0 {
        seq![Seq::<u8>::empty()]
    } else {
        let parts = split_fields(s.drop_last(), sep);
        if s.last() == sep {
            parts.push(Seq::empty())
        } else {
            parts.update(parts.len() - 1, parts.last().push(s.last()))
        }
    }
}

/// The split always has at least one field.
pub proof fn lemma_split_fields_len(s: Seq<u8>, sep: u8)
    ensures
        split_fields(s, sep).len() >= 1,
    decreases s.len(),
{
    if s.len() > 0 {
        lemma_split_fields_len(s.drop_last(), sep);
    }
}

/// Splits bytes at a separator.
pub fn split_bytes(s: &Vec<u8>, sep: u8) -> (r: Vec<Vec<u8>>)
    ensures
        r@.map_values(|p: Vec<u8>| p@) == split_fields(s@, sep),
{
    let mut done: Vec<Vec<u8>> = Vec::new();
    let mut cur: Vec<u8> = Vec::new();
    let n = s.len();
    let mut i: usize = 0;
    while i < n
        invariant
            n == s@.len(),
            0 <= i <= n,
            split_fields(s@.take(i as int), sep) =~= done@.map_values(|p: Vec<u8>| p@).push(
                cur@,
            ),
        decreases n - i,
    {
        let ghost prev = split_fields(s@.take(i as int), sep);
        let b = s[i];
        assert(s@.take(i + 1).drop_last() =~= s@.take(i as int));
        assert(s@.take(i + 1).last() == s@[i as int]);
        if b == sep {
            done.push(cur);
            cur = Vec::new();
            assert(split_fields(s@.take(i + 1), sep) =~= done@.map_values(
                |p: Vec<u8>| p@,
            ).push(cur@));
        } else {
            cur.push(b);
            proof {
                let m = done@.map_values(|p: Vec<u8>| p@);
                assert(prev.len() == m.len() + 1);
                assert(prev.last() == cur@.drop_last());
                assert(split_fields(s@.take(i + 1), sep) == prev.update(
                    prev.len() - 1,
                    prev.last().push(b),
                ));
                assert(prev.update(prev.len() - 1, prev.last().push(b)) =~= m.push(cur@));
            }
        }
        i = i + 1;
    }
    assert(s@.take(n as int) =~= s@);
    done.push(cur);
    assert(done@.map_values(|p: Vec<u8>| p@) =~= split_fields(s@, sep));
    done
}

/// Whether a byte is ASCII whitespace (as the snapshot files use it).
pub open spec fn is_ws(b: u8) -> bool {
    b == 0x20 || b == 0x09 || b == 0x0d || b == 0x0a
}

/// The sequence with leading whitespace removed.
pub open spec fn trim_front(s: Seq<u8>) -> Seq<u8>
    decreases s.len(),
{
    if s.len() > 0 && is_ws(s[0]) {
        trim_front(s.drop_first())
    } else {
        s
    }
}

/// The sequence with trailing whitespace removed.
pub open spec fn trim_back(s: Seq<u8>) -> Seq<u8>
    decreases s.len(),
{
    if s.len() > 0 && is_ws(s.last()) {
        trim_back(s.drop_last())
    } else {
        s
    }
}

/// The sequence with whitespace removed at both ends.
pub open spec fn trim_spec(s: Seq<u8>) -> Seq<u8> {
    trim_back(trim_front(s))
}

/// Removes ASCII whitespace at both ends.
pub fn trim_bytes(s: &Vec<u8>) -> (r: Vec<u8>)
    ensures
        r@ == trim_spec(s@),
{
    let n = s.len();
    assert(s@.skip(0) =~= s@);
    let mut lo: usize = 0;
    while lo < n && (s[lo] == 0x20 || s[lo] == 0x09 || s[lo] == 0x0d || s[lo] == 0x0a)
        invariant
            n == s@.len(),
            0 <= lo <= n,
            trim_front(s@) == trim_front(s@.skip(lo as int)),
        decreases n - lo,
    {
        assert(s@.skip(lo as int).drop_first() =~= s@.skip(lo + 1));
        lo = lo + 1;
    }
    assert(trim_front(s@) =~= s@.skip(lo as int));
    let mut hi: usize = n;
    while hi > lo && (s[hi - 1] == 0x20 || s[hi - 1] == 0x09 || s[hi - 1] == 0x0d || s[hi - 1]
        == 0x0a)
        invariant
            n == s@.len(),
            0 <= lo <= hi <= n,
            trim_front(s@) == s@.skip(lo as int),
            trim_back(s@.skip(lo as int)) == trim_back(s@.subrange(lo as int, hi as int)),
        decreases hi,
    {
        assert(s@.subrange(lo as int, hi as int).drop_last() =~= s@.subrange(
            lo as int,
            hi - 1,
        ));
        assert(s@.subrange(lo as int, hi as int).last() == s@[hi - 1]);
        hi = hi - 1;
    }
    let out = vstd::slice::slice_to_vec(vstd::slice::slice_subrange(s.as_slice(), lo, hi));
    proof {
        let t = s@.subrange(lo as int, hi as int);
        if t.len() > 0 {
            assert(!is_ws(t.last()));
        }
        assert(trim_back(t) == t);
    }
    assert(out@ =~= trim_spec(s@));
    out
}

/// The value of a run of decimal digits, most significant first.
pub open spec fn digits_value(s: Seq<u8>) -> nat
    decreases s.len(),
{
    if s.len() == 0 {
        0
    } else {
        (digits_value(s.drop_last()) * 10 + (s.last() - 0x30)) as nat
    }
}

/// Whether every byte is a decimal digit.
pub open spec fn all_digits(s: Seq<u8>) -> bool {
    forall|i: int| 0 <= i < s.len() ==> 0x30 <= #[trigger] s[i] <= 0x39
}

/// The number a byte string denotes: defined exactly when it is a
/// non-empty run of decimal digits whose value fits the count range.
pub open spec fn parse_u64_spec(s: Seq<u8>) -> Option<u64> {
    if s.len() > 0 && all_digits(s) && digits_value(s) <= u64::MAX {
        Some(digits_value(s) as u64)
    } else {
        None
    }
}

/// Parses a decimal count.
pub fn parse_u64_bytes(s: &Vec<u8>) -> (r: Option<u64>)
    ensures
        r == parse_u64_spec(s@),
{
    let n = s.len();
    if n == 0 {
        return None;
    }
    let mut acc: u64 = 0;
    let mut i: usize = 0;
    while i < n
        invariant
            n == s@.len(),
            0 <= i <= n,
            all_digits(s@.take(i as int)),
            acc == digits_value(s@.take(i as int)),
            digits_value(s@.take(i as int)) <= u64::MAX,
        decreases n - i,
    {
        let b = s[i];
        if b < 0x30 || b > 0x39 {
            assert(!all_digits(s@));
            return None;
        }
        let d = (b - 0x30) as u64;
        assert(s@.take(i + 1).drop_last() =~= s@.take(i as int));
        assert(s@.take(i + 1).last() == s@[i as int]);
        if acc > (0xffff_ffff_ffff_ffffu64 - d) / 10 {
            proof {
                assert(digits_value(s@.take(i + 1)) == acc * 10 + d);
                assert(acc * 10 + d > u64::MAX) by (nonlinear_arith)
                    requires acc > (0xffff_ffff_ffff_ffffu64 - d) / 10, d <= 9;
                if all_digits(s@) {
                    lemma_digits_value_monotone(s@, i + 1);
                }
            }
            assert(parse_u64_spec(s@) is None);
            return None;
        }
        proof {
            assert(acc * 10 + d <= u64::MAX) by (nonlinear_arith)
                requires acc <= (0xffff_ffff_ffff_ffffu64 - d) / 10, d <= 9;
        }
        acc = acc * 10 + d;
        assert(all_digits(s@.take(i + 1)));
        i = i + 1;
    }
    assert(s@.take(n as int) =~= s@);
    Some(acc)
}

/// A longer digit prefix never denotes a smaller value.
proof fn lemma_digits_value_monotone(s: Seq<u8>, k: int)
    requires
        0 < k <= s.len(),
        all_digits(s),
    ensures
        digits_value(s) >= digits_value(s.take(k)),
    decreases s.len() - k,
{
    if k < s.len() {
        lemma_digits_value_monotone(s, k + 1);
        assert(s.take(k + 1).drop_last() =~= s.take(k));
        assert(s.take(k + 1).last() == s[k]);
        assert(0x30 <= s[k] <= 0x39);
        assert(digits_value(s.take(k + 1)) >= digits_value(s.take(k)) * 10) by (nonlinear_arith)
            requires
                digits_value(s.take(k + 1)) == digits_value(s.take(k + 1).drop_last()) * 10 + (
                s.take(k + 1).last() - 0x30),
                digits_value(s.take(k + 1).drop_last()) == digits_value(s.take(k)),
                s.take(k + 1).last() >= 0x30,
        ;
        assert(digits_value(s.take(k)) * 10 >= digits_value(s.take(k))) by (nonlinear_arith);
    } else {
        assert(s.take(k) =~= s);
    }
}


/// Saturating addition of counts.
pub open spec fn sat_add(a: u64, b: u64) -> u64 {
    if a + b > u64::MAX {
        u64::MAX
    } else {
        (a + b) as u64
    }
}

/// Adding a parsed row to the running counts: the first entry under the
/// key grows (saturating at the range ceiling); an unseen key is appended.
pub open spec fn bump(acc: Seq<(Seq<char>, u64)>, key: Seq<char>, n: u64) -> Seq<
    (Seq<char>, u64),
>
    decreases acc.len(),
{
    if acc.len() == 0 {
        seq![(key, n)]
    } else if acc[0].0 == key {
        seq![(acc[0].0, sat_add(acc[0].1, n))] + acc.drop_first()
    } else {
        seq![acc[0]] + bump(acc.drop_first(), key, n)
    }
}

/// Pairwise-distinct keys.
pub open spec fn ckeys_distinct(s: Seq<(Seq<char>, u64)>) -> bool {
    forall|i: int, j: int| 0 <= i < j < s.len() ==> (#[trigger] s[i]).0 != (#[trigger] s[j]).0
}

proof fn lemma_bump_at(s: Seq<(Seq<char>, u64)>, key: Seq<char>, n: u64, i: int)
    requires
        0 <= i < s.len(),
        s[i].0 == key,
        forall|j: int| 0 <= j < i ==> (#[trigger] s[j]).0 != key,
    ensures
        bump(s, key, n) == s.update(i, (s[i].0, sat_add(s[i].1, n))),
    decreases i,
{
    if i == 0 {
        assert(bump(s, key, n) == seq![(s[0].0, sat_add(s[0].1, n))] + s.drop_first());
        assert(seq![(s[0].0, sat_add(s[0].1, n))] + s.drop_first() =~= s.update(
            0,
            (s[0].0, sat_add(s[0].1, n)),
        ));
    } else {
        lemma_bump_at(s.drop_first(), key, n, i - 1);
        assert(s.drop_first()[i - 1] == s[i]);
        assert(bump(s, key, n) == seq![s[0]] + bump(s.drop_first(), key, n));
        assert(seq![s[0]] + s.drop_first().update(i - 1, (s[i].0, sat_add(s[i].1, n)))
            =~= s.update(i, (s[i].0, sat_add(s[i].1, n))));
    }
}

proof fn lemma_bump_absent(s: Seq<(Seq<char>, u64)>, key: Seq<char>, n: u64)
    requires
        forall|j: int| 0 <= j < s.len() ==> (#[trigger] s[j]).0 != key,
    ensures
        bump(s, key, n) == s.push((key, n)),
    decreases s.len(),
{
    if s.len() == 0 {
        assert(bump(s, key, n) =~= s.push((key, n)));
    } else {
        lemma_bump_absent(s.drop_first(), key, n);
        assert(bump(s, key, n) == seq![s[0]] + s.drop_first().push((key, n)));
        assert(seq![s[0]] + s.drop_first().push((key, n)) =~= s.push((key, n)));
    }
}

/// The view of one running-count entry.
pub open spec fn count_view(p: (String, u64)) -> (Seq<char>, u64) {
    (p.0@, p.1)
}

/// Adds `n` to the count under `key`, appending the key when unseen.
fn bump_counts(acc: &mut Vec<(String, u64)>, key: String, n: u64)
    requires
        ckeys_distinct(old(acc)@.map_values(|p: (String, u64)| count_view(p))),
    ensures
        final(acc)@.map_values(|p: (String, u64)| count_view(p)) == bump(
            old(acc)@.map_values(|p: (String, u64)| count_view(p)),
            key@,
            n,
        ),
        ckeys_distinct(final(acc)@.map_values(|p: (String, u64)| count_view(p))),
{
    let ghost olds = acc@.map_values(|p: (String, u64)| count_view(p));
    let len = acc.len();
    let mut i: usize = 0;
    while i < len
        invariant
            len == acc@.len(),
            0 <= i <= len,
            olds == acc@.map_values(|p: (String, u64)| count_view(p)),
            olds == old(acc)@.map_values(|p: (String, u64)| count_view(p)),
            ckeys_distinct(olds),
            forall|j: int| 0 <= j < i ==> (#[trigger] olds[j]).0 != key@,
        decreases len - i,
    {
        let hit = acc[i].0.eq(&key);
        if hit {
            assert(olds[i as int] == count_view(acc@[i as int]));
            assert(olds[i as int].0 == key@);
            let cur = acc[i].1;
            let newv = if cur > u64::MAX - n {
                u64::MAX
            } else {
                cur + n
            };
            acc[i] = (key, newv);
            proof {
                lemma_bump_at(olds, key@, n, i as int);
                let finalv = acc@.map_values(|p: (String, u64)| count_view(p));
                assert(finalv =~= olds.update(
                    i as int,
                    (olds[i as int].0, sat_add(olds[i as int].1, n)),
                ));
                assert forall|a: int, b: int| 0 <= a < b < finalv.len() implies (
                #[trigger] finalv[a]).0 != (#[trigger] finalv[b]).0 by {
                    assert(finalv[a].0 == olds[a].0);
                    assert(finalv[b].0 == olds[b].0);
                    assert(olds[a].0 != olds[b].0);
                }
            }
            return ;
        }
        assert(olds[i as int] == count_view(acc@[i as int]));
        i = i + 1;
    }
    acc.push((key, n));
    proof {
        lemma_bump_absent(olds, key@, n);
        assert(acc@.map_values(|p: (String, u64)| count_view(p)) =~= olds.push((key@, n)));
    }
}

/// What one snapshot row contributes: the principal text and count, when
/// the row is long enough, the principal parses, and the count is a plain
/// decimal number.
pub open spec fn line_contribution(line: Seq<u8>) -> Option<(Seq<char>, u64)> {
    if trim_spec(line).len() == 0 {
        None
    } else {
        let parts = split_fields(line, 0x2c);
        if parts.len() < 4 {
            None
        } else {
            let ptxt = trim_spec(parts[1]);
            if ptxt.len() == 0 || !vstd::utf8::valid_utf8(ptxt) {
                None
            } else if ids::parsed_principal(vstd::utf8::decode_utf8(ptxt)) is None {
                None
            } else {
                match parse_u64_spec(trim_spec(parts[3])) {
                    Some(nn) => Some((vstd::utf8::decode_utf8(ptxt), nn)),
                    None => None,
                }
            }
        }
    }
}

/// The counts accumulated over the lines from position `i` on.
pub open spec fn load_from(lines: Seq<Seq<u8>>, i: int, acc: Seq<(Seq<char>, u64)>) -> Seq<
    (Seq<char>, u64),
>
    decreases lines.len() - i,
{
    if i < 0 || i >= lines.len() {
        acc
    } else {
        match line_contribution(lines[i]) {
            Some((k, nn)) => load_from(lines, i + 1, bump(acc, k, nn)),
            None => load_from(lines, i + 1, acc),
        }
    }
}

/// The holder counts a snapshot file denotes: its lines after the header,
/// each valid row's count accumulated under its principal text.
pub open spec fn load_holders_spec(csv: Seq<u8>) -> Seq<(Seq<char>, u64)> {
    load_from(split_fields(csv, 0x0a), 1, Seq::empty())
}

/// Parses a snapshot file into per-principal counts, skipping the header
/// and every malformed row.
fn load_holder_counts(csv_data: &str) -> (r: Vec<(String, u64)>)
    ensures
        r@.map_values(|p: (String, u64)| count_view(p)) == load_holders_spec(
            csv_data.spec_bytes(),
        ),
        ckeys_distinct(r@.map_values(|p: (String, u64)| count_view(p))),
{
    let bytes = csv_data.as_bytes_vec();
    let lines = split_bytes(&bytes, 0x0a);
    let ghost lines_v = lines@.map_values(|p: Vec<u8>| p@);
    proof {
        lemma_split_fields_len(bytes@, 0x0a);
    }
    let mut acc: Vec<(String, u64)> = Vec::new();
    assert(acc@.map_values(|p: (String, u64)| count_view(p))
        =~= Seq::<(Seq<char>, u64)>::empty());
    let n = lines.len();
    let mut i: usize = 1;
    while i < n
        invariant
            n == lines@.len() >= 1,
            lines_v == lines@.map_values(|p: Vec<u8>| p@),
            1 <= i <= n,
            ckeys_distinct(acc@.map_values(|p: (String, u64)| count_view(p))),
            load_from(lines_v, 1, Seq::empty()) == load_from(
                lines_v,
                i as int,
                acc@.map_values(|p: (String, u64)| count_view(p)),
            ),
        decreases n - i,
    {
        let ghost accv = acc@.map_values(|p: (String, u64)| count_view(p));
        let ghost line = lines_v[i as int];
        let trimmed = trim_bytes(&lines[i]);
        if trimmed.len() == 0 {
            assert(line_contribution(line) is None);
            i = i + 1;
            continue ;
        }
        let parts = split_bytes(&lines[i], 0x2c);
        let ghost parts_v = parts@.map_values(|p: Vec<u8>| p@);
        assert(parts_v == split_fields(line, 0x2c));
        if parts.len() < 4 {
            assert(line_contribution(line) is None);
            i = i + 1;
            continue ;
        }
        let ptxt = trim_bytes(&parts[1]);
        assert(ptxt@ == trim_spec(parts_v[1]));
        if ptxt.len() == 0 {
            assert(line_contribution(line) is None);
            i = i + 1;
            continue ;
        }
        match ids::string_from_utf8(&ptxt) {
            Some(ptext) => {
                match ids::parse_principal_text(ptext.as_str()) {
                    Some(_raw) => {
                        let numf = trim_bytes(&parts[3]);
                        assert(numf@ == trim_spec(parts_v[3]));
                        match parse_u64_bytes(&numf) {
                            Some(nn) => {
                                assert(line_contribution(line) == Some((ptext@, nn)));
                                bump_counts(&mut acc, ptext, nn);
                            },
                            None => {
                                assert(line_contribution(line) is None);
                            },
                        }
                    },
                    None => {
                        assert(line_contribution(line) is None);
                    },
                }
            },
            None => {
                assert(line_contribution(line) is None);
            },
        }
        i = i + 1;
    }
    assert(load_from(lines_v, n as int, acc@.map_values(|p: (String, u64)| count_view(p)))
        == acc@.map_values(|p: (String, u64)| count_view(p)));
    acc
}

/// Loads the first registry's holder snapshot: per-principal counts from
/// the file's rows, header skipped, malformed rows ignored.
pub fn load_daku_holders(csv_data: &str) -> (r: Vec<(String, u64)>)
    ensures
        r@.map_values(|p: (String, u64)| count_view(p)) == load_holders_spec(
            csv_data.spec_bytes(),
        ),
        ckeys_distinct(r@.map_values(|p: (String, u64)| count_view(p))),
{
    load_holder_counts(csv_data)
}

/// Loads the second registry's holder snapshot; the file format is the
/// same.
pub fn load_gg_holders(csv_data: &str) -> (r: Vec<(String, u64)>)
    ensures
        r@.map_values(|p: (String, u64)| count_view(p)) == load_holders_spec(
            csv_data.spec_bytes(),
        ),
        ckeys_distinct(r@.map_values(|p: (String, u64)| count_view(p))),
{
    load_holder_counts(csv_data)
}


/// The count stored under `key`, if any: the first matching entry.
pub open spec fn counts_lookup(s: Seq<(Seq<char>, u64)>, key: Seq<char>) -> Option<u64>
    decreases s.len(),
{
    if s.len() == 0 {
        None
    } else if s[0].0 == key {
        Some(s[0].1)
    } else {
        counts_lookup(s.drop_first(), key)
    }
}

proof fn lemma_counts_lookup_at(s: Seq<(Seq<char>, u64)>, key: Seq<char>, i: int)
    requires
        0 <= i < s.len(),
        s[i].0 == key,
        forall|j: int| 0 <= j < i ==> (#[trigger] s[j]).0 != key,
    ensures
        counts_lookup(s, key) == Some(s[i].1),
    decreases i,
{
    if i > 0 {
        lemma_counts_lookup_at(s.drop_first(), key, i - 1);
    }
}

proof fn lemma_counts_lookup_none(s: Seq<(Seq<char>, u64)>, key: Seq<char>)
    requires
        forall|j: int| 0 <= j < s.len() ==> (#[trigger] s[j]).0 != key,
    ensures
        counts_lookup(s, key) is None,
    decreases s.len(),
{
    if s.len() > 0 {
        lemma_counts_lookup_none(s.drop_first(), key);
    }
}

/// Finds the count under `key`.
fn counts_find(list: &Vec<(String, u64)>, key: &String) -> (r: Option<u64>)
    ensures
        r == counts_lookup(list@.map_values(|p: (String, u64)| count_view(p)), key@),
{
    let ghost v = list@.map_values(|p: (String, u64)| count_view(p));
    let n = list.len();
    let mut i: usize = 0;
    while i < n
        invariant
            n == list@.len(),
            v == list@.map_values(|p: (String, u64)| count_view(p)),
            0 <= i <= n,
            forall|j: int| 0 <= j < i ==> (#[trigger] v[j]).0 != key@,
        decreases n - i,
    {
        if list[i].0.eq(key) {
            proof {
                lemma_counts_lookup_at(v, key@, i as int);
            }
            return Some(list[i].1);
        }
        assert(v[i as int] == count_view(list@[i as int]));
        i = i + 1;
    }
    proof {
        lemma_counts_lookup_none(v, key@);
    }
    None
}

/// A merged record: both counts, the second clipped so the total stays in
/// range, the total their sum.
pub open spec fn merge_record(d: u64, g: u64, now: u64) -> HolderInfo {
    let gs = if g > u64::MAX - d {
        (u64::MAX - d) as u64
    } else {
        g
    };
    HolderInfo { daku_count: d, gg_count: gs, total_count: (d + gs) as u64, last_updated: now }
}

/// A count, or zero when absent.
pub open spec fn count_or_none_zero(c: Option<u64>) -> u64 {
    match c {
        Some(v) => v,
        None => 0,
    }
}

/// The merged entries for principals that appear only in the second
/// snapshot, in its order.
pub open spec fn gg_only(
    daku: Seq<(Seq<char>, u64)>,
    gg: Seq<(Seq<char>, u64)>,
    now: u64,
) -> Seq<(Seq<char>, HolderInfo)>
    decreases gg.len(),
{
    if gg.len() == 0 {
        Seq::empty()
    } else {
        let rest = gg_only(daku, gg.drop_first(), now);
        if counts_lookup(daku, gg[0].0) is None {
            seq![(gg[0].0, merge_record(0, gg[0].1, now))] + rest
        } else {
            rest
        }
    }
}

proof fn lemma_gg_only_snoc(
    daku: Seq<(Seq<char>, u64)>,
    gg: Seq<(Seq<char>, u64)>,
    now: u64,
    k: int,
)
    requires
        0 <= k < gg.len(),
    ensures
        gg_only(daku, gg.take(k + 1), now) == gg_only(daku, gg.take(k), now) + (
        if counts_lookup(daku, gg[k].0) is None {
            seq![(gg[k].0, merge_record(0, gg[k].1, now))]
        } else {
            Seq::<(Seq<char>, HolderInfo)>::empty()
        }),
    decreases k,
{
    if k == 0 {
        assert(gg.take(1)[0] == gg[0]);
        assert(gg.take(1).drop_first() =~= Seq::<(Seq<char>, u64)>::empty());
        assert(gg.take(0) =~= Seq::<(Seq<char>, u64)>::empty());
        assert(gg_only(daku, Seq::<(Seq<char>, u64)>::empty(), now)
            =~= Seq::<(Seq<char>, HolderInfo)>::empty());
        if counts_lookup(daku, gg[0].0) is None {
            assert(gg_only(daku, gg.take(1), now) =~~= seq![
                (gg[0].0, merge_record(0, gg[0].1, now)),
            ]);
            assert(gg_only(daku, gg.take(0), now) + seq![
                (gg[0].0, merge_record(0, gg[0].1, now)),
            ] =~~= seq![(gg[0].0, merge_record(0, gg[0].1, now))]);
        }
    } else {
        lemma_gg_only_snoc(daku, gg.drop_first(), now, k - 1);
        assert(gg.take(k + 1).drop_first() =~= gg.drop_first().take(k));
        assert(gg.take(k).drop_first() =~= gg.drop_first().take(k - 1));
        assert(gg.take(k + 1)[0] == gg[0]);
        assert(gg.take(k)[0] == gg[0]);
        assert(gg.drop_first()[k - 1] == gg[k]);
        if counts_lookup(daku, gg[0].0) is None {
            assert(seq![(gg[0].0, merge_record(0, gg[0].1, now))] + (gg_only(
                daku,
                gg.drop_first().take(k - 1),
                now,
            ) + (if counts_lookup(daku, gg[k].0) is None {
                seq![(gg[k].0, merge_record(0, gg[k].1, now))]
            } else {
                Seq::<(Seq<char>, HolderInfo)>::empty()
            })) =~~= (seq![(gg[0].0, merge_record(0, gg[0].1, now))] + gg_only(
                daku,
                gg.drop_first().take(k - 1),
                now,
            )) + (if counts_lookup(daku, gg[k].0) is None {
                seq![(gg[k].0, merge_record(0, gg[k].1, now))]
            } else {
                Seq::<(Seq<char>, HolderInfo)>::empty()
            }));
        }
    }
}

/// Loads both snapshots and merges them, dated `now`: one entry per
/// principal of the first file (its count paired with the second file's
/// count for the same principal, if any), then one entry per principal
/// only the second file names.  Every record's total equals the sum of
/// its counts.
pub fn load_all_holders(daku_csv: &str, gg_csv: &str, now: u64) -> (r: Vec<(String, HolderInfo)>)
    ensures
        ({
            let dl = load_holders_spec(daku_csv.spec_bytes());
            let gl = load_holders_spec(gg_csv.spec_bytes());
            &&& r@.len() == dl.len() + gg_only(dl, gl, now).len()
            &&& forall|q: int|
                0 <= q < dl.len() ==> (#[trigger] r@[q]).0@ == dl[q].0 && r@[q].1 == merge_record(
                    dl[q].1,
                    count_or_none_zero(counts_lookup(gl, dl[q].0)),
                    now,
                )
            &&& forall|t: int|
                0 <= t < gg_only(dl, gl, now).len() ==> ((#[trigger] r@[dl.len() + t]).0@, r@[dl.len()
                    + t].1) == gg_only(dl, gl, now)[t]
        }),
        forall|q: int| 0 <= q < r@.len() ==> holder_wf((#[trigger] r@[q]).1),
{
    let daku_list = load_daku_holders(daku_csv);
    let gg_list = load_gg_holders(gg_csv);
    let ghost dl = daku_list@.map_values(|p: (String, u64)| count_view(p));
    let ghost gl = gg_list@.map_values(|p: (String, u64)| count_view(p));
    let mut out: Vec<(String, HolderInfo)> = Vec::new();
    let dn = daku_list.len();
    let mut q: usize = 0;
    while q < dn
        invariant
            dn == daku_list@.len(),
            dl == daku_list@.map_values(|p: (String, u64)| count_view(p)),
            gl == gg_list@.map_values(|p: (String, u64)| count_view(p)),
            0 <= q <= dn,
            out@.len() == q,
            forall|a: int|
                0 <= a < q ==> (#[trigger] out@[a]).0@ == dl[a].0 && out@[a].1 == merge_record(
                    dl[a].1,
                    count_or_none_zero(counts_lookup(gl, dl[a].0)),
                    now,
                ),
            forall|a: int| 0 <= a < q ==> holder_wf((#[trigger] out@[a]).1),
        decreases dn - q,
    {
        let entry = &daku_list[q];
        assert(dl[q as int] == count_view(daku_list@[q as int]));
        let d = entry.1;
        let g0 = match counts_find(&gg_list, &entry.0) {
            Some(v) => v,
            None => 0,
        };
        let g = if g0 > u64::MAX - d {
            u64::MAX - d
        } else {
            g0
        };
        out.push((entry.0.clone(), HolderInfo::make(d, g, now)));
        q = q + 1;
    }
    let gn = gg_list.len();
    let mut t: usize = 0;
    while t < gn
        invariant
            gn == gg_list@.len(),
            dn == daku_list@.len(),
            dl == daku_list@.map_values(|p: (String, u64)| count_view(p)),
            gl == gg_list@.map_values(|p: (String, u64)| count_view(p)),
            0 <= t <= gn,
            out@.len() == dn + gg_only(dl, gl.take(t as int), now).len(),
            forall|a: int|
                0 <= a < dn ==> (#[trigger] out@[a]).0@ == dl[a].0 && out@[a].1 == merge_record(
                    dl[a].1,
                    count_or_none_zero(counts_lookup(gl, dl[a].0)),
                    now,
                ),
            forall|a: int|
                0 <= a < gg_only(dl, gl.take(t as int), now).len() ==> ((#[trigger] out@[dn + a]).0@,
                out@[dn + a].1) == gg_only(dl, gl.take(t as int), now)[a],
            forall|a: int| 0 <= a < out@.len() ==> holder_wf((#[trigger] out@[a]).1),
        decreases gn - t,
    {
        let entry = &gg_list[t];
        assert(gl[t as int] == count_view(gg_list@[t as int]));
        let absent = match counts_find(&daku_list, &entry.0) {
            Some(_) => false,
            None => true,
        };
        if absent {
            let g = entry.1;
            out.push((entry.0.clone(), HolderInfo::make(0, g, now)));
            assert(merge_record(0, g, now) == HolderInfo {
                daku_count: 0,
                gg_count: g,
                total_count: g,
                last_updated: now,
            });
        }
        proof {
            lemma_gg_only_snoc(dl, gl, now, t as int);
        }
        t = t + 1;
    }
    assert(gl.take(gn as int) =~= gl);
    out
}


/// Two small snapshot files with known rows, for exercising the loaders.
pub fn generate_test_csv_data() -> (r: (String, String))
    ensures
        r.0@
            == "accountIdentifier,principal,tokenIds,numberOfTokens\neba62ff09790de35107a9502cf673a708f5ce4aa9ad04d0e862349c9d25935f8,cd3yv-nkb2m-mjvnb-naicp-mkqk2-g4f3d-g7y4g-xdeaz-n6i75-xur54-xae,2333,3\nf44c18611325ddf715e8a8a6f8e8308f2606b2ebc5ca5102f8a4f97981128450,wxnnz-bart4-tsufm-hvz3u-fhcgm-vb5yu-ilba5-7qaui-25eg5-nsmbg-zqe,4;7;9;1962;10;92,0\nb1569a59eea517235679a67be1d1df9b5a6c700656b56116e71f8e14b3f2a585,jt6pq-pfact-6nq4w-xpd7l-jvsh3-ghmvo-yp34h-pmon5-5dcjo-rygay-sqe,98;83;101;102;167;169,100"@,
        r.1@
            == "accountIdentifier,principal,tokenIds,numberOfTokens\neba62ff09790de35107a9502cf673a708f5ce4aa9ad04d0e862349c9d25935f8,cd3yv-nkb2m-mjvnb-naicp-mkqk2-g4f3d-g7y4g-xdeaz-n6i75-xur54-xae,2333,2\nf44c18611325ddf715e8a8a6f8e8308f2606b2ebc5ca5102f8a4f97981128450,wxnnz-bart4-tsufm-hvz3u-fhcgm-vb5yu-ilba5-7qaui-25eg5-nsmbg-zqe,4;7;9;1962;10;92,7\n61a14b047702783700379608d2a86248eb30721709ce3b807ec5a8571f7fc390,rce3q-iaaaa-aaaap-qpyfa-cai,2434,1"@,
{
    let daku_csv = String::from_str(
        "accountIdentifier,principal,tokenIds,numberOfTokens\neba62ff09790de35107a9502cf673a708f5ce4aa9ad04d0e862349c9d25935f8,cd3yv-nkb2m-mjvnb-naicp-mkqk2-g4f3d-g7y4g-xdeaz-n6i75-xur54-xae,2333,3\nf44c18611325ddf715e8a8a6f8e8308f2606b2ebc5ca5102f8a4f97981128450,wxnnz-bart4-tsufm-hvz3u-fhcgm-vb5yu-ilba5-7qaui-25eg5-nsmbg-zqe,4;7;9;1962;10;92,0\nb1569a59eea517235679a67be1d1df9b5a6c700656b56116e71f8e14b3f2a585,jt6pq-pfact-6nq4w-xpd7l-jvsh3-ghmvo-yp34h-pmon5-5dcjo-rygay-sqe,98;83;101;102;167;169,100",
    );
    let gg_csv = String::from_str(
        "accountIdentifier,principal,tokenIds,numberOfTokens\neba62ff09790de35107a9502cf673a708f5ce4aa9ad04d0e862349c9d25935f8,cd3yv-nkb2m-mjvnb-naicp-mkqk2-g4f3d-g7y4g-xdeaz-n6i75-xur54-xae,2333,2\nf44c18611325ddf715e8a8a6f8e8308f2606b2ebc5ca5102f8a4f97981128450,wxnnz-bart4-tsufm-hvz3u-fhcgm-vb5yu-ilba5-7qaui-25eg5-nsmbg-zqe,4;7;9;1962;10;92,7\n61a14b047702783700379608d2a86248eb30721709ce3b807ec5a8571f7fc390,rce3q-iaaaa-aaaap-qpyfa-cai,2434,1",
    );
    (daku_csv, gg_csv)
}

} // verus!
